//! The directories of every control group hierarchy.

use vstd::prelude::*;
use crate::cgroup::collections::{child_map, inode_set, pid_map, ChildMap, InodeSet, PidMap};
use crate::cgroup::files::named;
use crate::cgroup::namespace::MAX_NAME_LEN;
use crate::error::Error;
use crate::text::{list_contains, lists};

verus! {

/// Bound on hierarchy walks.  Control groups start empty on every boot, so
/// enforcing this when a directory is created or moved covers every reachable
/// tree.
pub const MAX_CGROUP_DEPTH: usize = 256;

/// Directories on a walk from the deepest directory to a root.
pub const MAX_CGROUP_STEPS: usize = 257;

#[derive(Clone, Copy, Debug, PartialEq, Eq, Structural)]
pub enum CgroupVersion {
    V1,
    V2,
}

/// One hierarchy is kernel state, not mount state: a second mount never makes a
/// second tree, and thereby a second set of limits and memberships.
pub struct Hierarchy {
    pub version: CgroupVersion,
    pub controllers: Vec<String>,
    pub root: usize,
    /// The identities of its directories and control files.
    pub inodes: InodeSet,
    pub next_inode: u64,
}

/// What the inode of a directory or a control file says of it.
#[derive(Clone, Copy, Debug, PartialEq, Eq, Structural)]
pub struct NodeMetadata {
    pub mode: u16,
    pub uid: u32,
    pub gid: u32,
    pub rdev: u64,
    pub atime: u64,
    pub mtime: u64,
    pub ctime: u64,
}

/// A change of what an inode says.
#[derive(Clone, Copy, Debug, PartialEq, Eq)]
pub struct MetadataUpdate {
    pub mode: Option<u16>,
    pub owner: Option<(u32, u32)>,
    pub rdev: Option<u64>,
    pub atime: Option<u64>,
    pub mtime: Option<u64>,
    pub ctime: Option<u64>,
}

/// The metadata after a change.  The status time follows every change but that
/// of the access time, unless the change names it.
pub open spec fn updated(m: NodeMetadata, u: MetadataUpdate, now: u64) -> NodeMetadata {
    NodeMetadata {
        mode: match u.mode {
            Some(mode) => mode,
            None => m.mode,
        },
        uid: match u.owner {
            Some(owner) => owner.0,
            None => m.uid,
        },
        gid: match u.owner {
            Some(owner) => owner.1,
            None => m.gid,
        },
        rdev: match u.rdev {
            Some(rdev) => rdev,
            None => m.rdev,
        },
        atime: match u.atime {
            Some(atime) => atime,
            None => m.atime,
        },
        mtime: match u.mtime {
            Some(mtime) => mtime,
            None => m.mtime,
        },
        ctime: match u.ctime {
            Some(ctime) => ctime,
            None => if u.mode is Some || u.owner is Some || u.rdev is Some || u.mtime is Some {
                now
            } else {
                m.ctime
            },
        },
    }
}

impl NodeMetadata {
    pub fn new(mode: u16, now: u64) -> (metadata: NodeMetadata)
        ensures
            metadata == (NodeMetadata {
                mode,
                uid: 0,
                gid: 0,
                rdev: 0,
                atime: now,
                mtime: now,
                ctime: now,
            }),
    {
        NodeMetadata { mode, uid: 0, gid: 0, rdev: 0, atime: now, mtime: now, ctime: now }
    }

    pub fn update(&mut self, update: MetadataUpdate, now: u64)
        ensures
            *final(self) == updated(*old(self), update, now),
    {
        let mut status_changed = false;
        if let Some(mode) = update.mode {
            self.mode = mode;
            status_changed = true;
        }
        if let Some((uid, gid)) = update.owner {
            self.uid = uid;
            self.gid = gid;
            status_changed = true;
        }
        if let Some(rdev) = update.rdev {
            self.rdev = rdev;
            status_changed = true;
        }
        if let Some(atime) = update.atime {
            self.atime = atime;
        }
        if let Some(mtime) = update.mtime {
            self.mtime = mtime;
            status_changed = true;
        }
        if let Some(ctime) = update.ctime {
            self.ctime = ctime;
        } else if status_changed {
            self.ctime = now;
        }
    }
}

/// One directory.
pub struct CgroupDir {
    /// The hierarchy it belongs to.
    pub hierarchy: usize,
    /// A stable identity that survives renames.
    pub inode: u64,
    /// The identity of the first of its control files; the others follow it.
    pub file_inodes: u64,
    pub parent: Option<usize>,
    pub name: Vec<u8>,
    /// Whether the parent's table still names it.
    pub linked: bool,
    /// Whether anything still refers to it.
    pub live: bool,
    pub namespace_epoch: u64,
    pub children: ChildMap,
    /// Entries include invisible fork reservations: readers filter on the
    /// publication bit, while capacity checks count every entry, so a pending
    /// fork cannot overbook capacity or let this directory disappear.
    pub pids: PidMap,
    pub pids_max: Option<u64>,
    pub pids_peak: u64,
    pub pids_events_limit: u64,
    /// The freeze request of this directory alone.
    pub frozen: bool,
    /// This group's requested clamp; the effective one is derived through the
    /// parents at the point it is consumed.
    pub uclamp: (u16, u16),
    /// Whether the children's member counts are controlled.
    pub subtree_pids: bool,
    pub metadata: NodeMetadata,
    /// What the inodes of its control files say, in the order of their identities.
    pub files: [NodeMetadata; 14],
}

/// What is said of one directory.
#[verifier::ext_equal]
pub struct DirView {
    pub hierarchy: usize,
    pub inode: u64,
    pub file_inodes: u64,
    pub parent: Option<usize>,
    pub name: Seq<u8>,
    pub linked: bool,
    pub live: bool,
    pub namespace_epoch: u64,
    pub children: Map<Seq<u8>, usize>,
    pub pids: Map<u64, usize>,
    pub pids_max: Option<u64>,
    pub pids_peak: u64,
    pub pids_events_limit: u64,
    pub frozen: bool,
    pub uclamp: (u16, u16),
    pub subtree_pids: bool,
    pub metadata: NodeMetadata,
    pub files: Seq<NodeMetadata>,
}

impl CgroupDir {
    pub open spec fn view(&self) -> DirView {
        DirView {
            hierarchy: self.hierarchy,
            inode: self.inode,
            file_inodes: self.file_inodes,
            parent: self.parent,
            name: self.name@,
            linked: self.linked,
            live: self.live,
            namespace_epoch: self.namespace_epoch,
            children: child_map(self.children),
            pids: pid_map(self.pids),
            pids_max: self.pids_max,
            pids_peak: self.pids_peak,
            pids_events_limit: self.pids_events_limit,
            frozen: self.frozen,
            uclamp: self.uclamp,
            subtree_pids: self.subtree_pids,
            metadata: self.metadata,
            files: self.files@,
        }
    }
}

/// Every directory of every hierarchy.  A directory is named by its index, and
/// an index is never used for a second directory.
pub struct Forest {
    pub hierarchies: Vec<Hierarchy>,
    pub dirs: Vec<CgroupDir>,
}

/// The directory above another, while anything refers to it.
pub open spec fn parent_of(ds: Seq<DirView>, x: int) -> Option<int> {
    match ds[x].parent {
        Some(p) => if ds[p as int].live {
            Some(p as int)
        } else {
            None
        },
        None => None,
    }
}

/// Whether a walk up from `x` ends at a root within `steps` directories.
pub open spec fn ends(ds: Seq<DirView>, x: int, steps: nat) -> bool
    decreases steps,
{
    steps > 0 && (match parent_of(ds, x) {
        Some(p) => ends(ds, p, (steps - 1) as nat),
        None => true,
    })
}

/// Whether a walk up from `x` meets `a` within `steps` directories.
pub open spec fn reaches(ds: Seq<DirView>, x: int, a: int, steps: nat) -> bool
    decreases steps,
{
    steps > 0 && (x == a || (match parent_of(ds, x) {
        Some(p) => reaches(ds, p, a, (steps - 1) as nat),
        None => false,
    }))
}

/// Whether `x` is `a` or is found below it through the directories' tables.
pub open spec fn below(ds: Seq<DirView>, x: int, a: int, steps: nat) -> bool
    decreases steps,
{
    steps > 0 && (x == a || (ds[x].linked && (match parent_of(ds, x) {
        Some(p) => below(ds, p, a, (steps - 1) as nat),
        None => false,
    })))
}

/// The number of directories above `x`, as far as `steps` directories show it.
pub open spec fn depth(ds: Seq<DirView>, x: int, steps: nat) -> int
    decreases steps,
{
    if steps == 0 {
        0
    } else {
        match parent_of(ds, x) {
            Some(p) => 1 + depth(ds, p, (steps - 1) as nat),
            None => 0,
        }
    }
}

/// The number of steps from `x` up to `a`.
pub open spec fn distance(ds: Seq<DirView>, x: int, a: int, steps: nat) -> int
    decreases steps,
{
    if steps == 0 || x == a {
        0
    } else {
        match parent_of(ds, x) {
            Some(p) => 1 + distance(ds, p, a, (steps - 1) as nat),
            None => 0,
        }
    }
}

/// The directories from `x` up to its root.
pub open spec fn chain(ds: Seq<DirView>, x: int, steps: nat) -> Seq<int>
    decreases steps,
{
    if steps == 0 {
        Seq::empty()
    } else {
        match parent_of(ds, x) {
            Some(p) => seq![x] + chain(ds, p, (steps - 1) as nat),
            None => seq![x],
        }
    }
}

/// Whether a directory on the walk up from `x` asks for a freeze.
pub open spec fn frozen_above(ds: Seq<DirView>, x: int, steps: nat) -> bool
    decreases steps,
{
    // What the walk does not come to the end of must not admit tasks.
    steps == 0 || ds[x].frozen || (match parent_of(ds, x) {
        Some(p) => frozen_above(ds, p, (steps - 1) as nat),
        None => false,
    })
}

pub open spec fn max16(a: u16, b: u16) -> u16 {
    if a >= b {
        a
    } else {
        b
    }
}

pub open spec fn min16(a: u16, b: u16) -> u16 {
    if a <= b {
        a
    } else {
        b
    }
}

/// Bounds narrowed by every directory on the walk up from `x`.
pub open spec fn narrowed(ds: Seq<DirView>, x: int, steps: nat, bounds: (u16, u16)) -> (u16, u16)
    decreases steps,
{
    if steps == 0 {
        bounds
    } else {
        let here = (max16(bounds.0, ds[x].uclamp.0), min16(bounds.1, ds[x].uclamp.1));
        match parent_of(ds, x) {
            Some(p) => narrowed(ds, p, (steps - 1) as nat, here),
            None => here,
        }
    }
}

/// The clamp that applies in `x` under the system-wide bounds.
pub open spec fn effective_clamp(ds: Seq<DirView>, x: int, bounds: (u16, u16)) -> (u16, u16) {
    let all = narrowed(ds, x, 257, bounds);
    (min16(all.0, all.1), all.1)
}

/// Entries, visible or not, of the first `n` directories that are below `d`.
pub open spec fn admitted_among(ds: Seq<DirView>, d: int, n: nat) -> nat
    decreases n,
{
    if n == 0 {
        0
    } else {
        let x = n - 1;
        admitted_among(ds, d, (n - 1) as nat) + (if below(ds, x, d, 257) {
            ds[x].pids.dom().len()
        } else {
            0
        })
    }
}

/// Entries, visible or not, in `d` and below it.
pub open spec fn admitted(ds: Seq<DirView>, d: int) -> nat {
    admitted_among(ds, d, ds.len())
}

/// The version of a directory's hierarchy.
pub open spec fn version(hs: Seq<Hierarchy>, ds: Seq<DirView>, x: int) -> CgroupVersion {
    hs[ds[x].hierarchy as int].version
}

/// Whether a directory's hierarchy has a controller.
pub open spec fn has_controller(
    hs: Seq<Hierarchy>,
    ds: Seq<DirView>,
    x: int,
    name: Seq<char>,
) -> bool {
    lists(hs[ds[x].hierarchy as int].controllers@, name)
}

/// Whether members of `x` are counted and limited.
pub open spec fn pids_active(hs: Seq<Hierarchy>, ds: Seq<DirView>, x: int) -> bool {
    match version(hs, ds, x) {
        CgroupVersion::V1 => has_controller(hs, ds, x, "pids"@),
        CgroupVersion::V2 => parent_of(ds, x) matches Some(p) && ds[p].subtree_pids,
    }
}

/// Whether members of `x` are clamped.  No directory of the unified hierarchy can
/// enable this for its children.
pub open spec fn cpu_active(hs: Seq<Hierarchy>, ds: Seq<DirView>, x: int) -> bool {
    version(hs, ds, x) == CgroupVersion::V1 && has_controller(hs, ds, x, "cpu"@)
}

/// Whether `x` controls its children's members and so can have none itself.
pub open spec fn is_internal(hs: Seq<Hierarchy>, ds: Seq<DirView>, x: int) -> bool {
    version(hs, ds, x) == CgroupVersion::V2 && ds[x].parent is Some && ds[x].subtree_pids
}

/// The nearest directory at or above `x` in which one more member would exceed
/// the limit.
pub open spec fn limiting(hs: Seq<Hierarchy>, ds: Seq<DirView>, x: int, steps: nat) -> Option<int>
    decreases steps,
{
    if steps == 0 {
        None
    } else if pids_active(hs, ds, x) && ds[x].pids_max is Some && admitted(ds, x) + 1
        > ds[x].pids_max->0 {
        Some(x)
    } else {
        match parent_of(ds, x) {
            Some(p) => limiting(hs, ds, p, (steps - 1) as nat),
            None => None,
        }
    }
}

/// Whether a walk up from `x` ends at a root.
pub open spec fn walk_ends(ds: Seq<DirView>, x: int) -> bool {
    exists|steps: nat| #[trigger] ends(ds, x, steps)
}

/// Every walk up ends: there is no cycle.
pub open spec fn acyclic(ds: Seq<DirView>) -> bool {
    forall|x: int| 0 <= x < ds.len() ==> #[trigger] walk_ends(ds, x)
}

/// No directory is found deeper below another than the admitted depth.
pub open spec fn bounded(ds: Seq<DirView>) -> bool {
    forall|x: int, a: int, steps: nat|
        0 <= x < ds.len() && #[trigger] below(ds, x, a, steps) ==> below(ds, x, a, 257)
}

/// Whether a directory can have the name: it is not too long, has no line break and
/// is no control file's.
pub open spec fn admissible(name: Seq<u8>) -> bool {
    name.len() <= MAX_NAME_LEN && !name.contains(10u8) && named(name) is None
}

/// The tables and the parent links say the same, and what a table names is there,
/// under a name that a directory can have.
pub open spec fn links_agree(ds: Seq<DirView>) -> bool {
    &&& forall|p: int, name: Seq<u8>|
        #![trigger ds[p].children.contains_key(name)]
        0 <= p < ds.len() && ds[p].children.contains_key(name) ==> {
            let c = ds[p].children[name] as int;
            &&& admissible(name)
            &&& ds[p].live
            &&& ds[c].linked
            &&& ds[c].parent == Some(p as usize)
            &&& ds[c].name == name
            &&& ds[c].hierarchy == ds[p].hierarchy
        }
    &&& forall|c: int|
        #![trigger ds[c]]
        0 <= c < ds.len() && ds[c].linked ==> ds[c].live && (ds[c].parent matches Some(p) ==> {
            let table = ds[p as int].children;
            table.contains_key(ds[c].name) && table[ds[c].name] == c
        })
}

impl Forest {
    pub open spec fn view(&self) -> Seq<DirView> {
        self.dirs@.map_values(|d: CgroupDir| d@)
    }

    /// Every index names a directory or a hierarchy.
    pub open spec fn indexed(self) -> bool {
        &&& forall|x: int|
            0 <= x < self@.len() ==> (#[trigger] self@[x]).hierarchy < self.hierarchies@.len()
        &&& forall|x: int|
            #![trigger self@[x]]
            0 <= x < self@.len() ==> (self@[x].parent matches Some(p) ==> p < self@.len())
        &&& forall|x: int, name: Seq<u8>|
            #![trigger self@[x].children.contains_key(name)]
            0 <= x < self@.len() && self@[x].children.contains_key(name) ==> self@[x].children[name]
                < self@.len()
    }

    /// Every hierarchy has its root, and identities that were not given out yet.
    pub open spec fn rooted(self) -> bool {
        &&& forall|h: int|
            0 <= h < self.hierarchies@.len() ==> {
                let root = (#[trigger] self.hierarchies@[h]).root;
                &&& root < self@.len()
                &&& self@[root as int].hierarchy == h
                &&& self@[root as int].parent is None
                &&& self@[root as int].linked
            }
        &&& forall|h: int, inode: u64|
            #![trigger inode_set(self.hierarchies@[h].inodes).contains(inode)]
            0 <= h < self.hierarchies@.len() && inode_set(
                self.hierarchies@[h].inodes,
            ).contains(inode) ==> inode < self.hierarchies@[h].next_inode
    }

    /// [`acyclic`], of this forest.
    pub open spec fn acyclic(self) -> bool {
        acyclic(self@)
    }

    /// [`bounded`], of this forest.
    pub open spec fn bounded(self) -> bool {
        bounded(self@)
    }

    /// [`links_agree`], of this forest.
    pub open spec fn links_agree(self) -> bool {
        links_agree(self@)
    }

    pub open spec fn wf(self) -> bool {
        self.indexed() && self.rooted() && self.acyclic() && self.bounded() && self.links_agree()
    }

    pub fn set_pids_peak(&mut self, x: usize, peak: u64)
        requires
            x < old(self)@.len(),
        ensures
            final(self)@ == old(self)@.update(
                x as int,
                DirView { pids_peak: peak, ..old(self)@[x as int] },
            ),
            final(self).hierarchies == old(self).hierarchies,
    {
        self.dirs[x].pids_peak = peak;
        assert(self@ =~= old(self)@.update(
            x as int,
            DirView { pids_peak: peak, ..old(self)@[x as int] },
        ));
    }

    pub fn set_pids_events_limit(&mut self, x: usize, events: u64)
        requires
            x < old(self)@.len(),
        ensures
            final(self)@ == old(self)@.update(
                x as int,
                DirView { pids_events_limit: events, ..old(self)@[x as int] },
            ),
            final(self).hierarchies == old(self).hierarchies,
    {
        self.dirs[x].pids_events_limit = events;
        assert(self@ =~= old(self)@.update(
            x as int,
            DirView { pids_events_limit: events, ..old(self)@[x as int] },
        ));
    }

    pub fn insert_pid(&mut self, x: usize, pid: u64, publication: usize)
        requires
            x < old(self)@.len(),
        ensures
            final(self)@ == old(self)@.update(
                x as int,
                DirView { pids: old(self)@[x as int].pids.insert(pid, publication), ..old(self)@[x as int] },
            ),
            final(self).hierarchies == old(self).hierarchies,
    {
        self.dirs[x].pids.insert(pid, publication);
        assert(self@ =~= old(self)@.update(
            x as int,
            DirView { pids: old(self)@[x as int].pids.insert(pid, publication), ..old(self)@[x as int] },
        ));
    }

    pub fn remove_pid(&mut self, x: usize, pid: u64)
        requires
            x < old(self)@.len(),
        ensures
            final(self)@ == old(self)@.update(
                x as int,
                DirView { pids: old(self)@[x as int].pids.remove(pid), ..old(self)@[x as int] },
            ),
            final(self).hierarchies == old(self).hierarchies,
    {
        self.dirs[x].pids.remove(pid);
        assert(self@ =~= old(self)@.update(
            x as int,
            DirView { pids: old(self)@[x as int].pids.remove(pid), ..old(self)@[x as int] },
        ));
    }

    pub fn set_pids_limit(&mut self, x: usize, limit: Option<u64>)
        requires
            x < old(self)@.len(),
        ensures
            final(self)@ == old(self)@.update(
                x as int,
                DirView { pids_max: limit, ..old(self)@[x as int] },
            ),
            final(self).hierarchies == old(self).hierarchies,
    {
        self.dirs[x].pids_max = limit;
        assert(self@ =~= old(self)@.update(
            x as int,
            DirView { pids_max: limit, ..old(self)@[x as int] },
        ));
    }

    pub fn set_frozen_flag(&mut self, x: usize, frozen: bool)
        requires
            x < old(self)@.len(),
        ensures
            final(self)@ == old(self)@.update(
                x as int,
                DirView { frozen, ..old(self)@[x as int] },
            ),
            final(self).hierarchies == old(self).hierarchies,
    {
        self.dirs[x].frozen = frozen;
        assert(self@ =~= old(self)@.update(
            x as int,
            DirView { frozen, ..old(self)@[x as int] },
        ));
    }

    pub fn set_uclamp_bounds(&mut self, x: usize, uclamp: (u16, u16))
        requires
            x < old(self)@.len(),
        ensures
            final(self)@ == old(self)@.update(
                x as int,
                DirView { uclamp, ..old(self)@[x as int] },
            ),
            final(self).hierarchies == old(self).hierarchies,
    {
        self.dirs[x].uclamp = uclamp;
        assert(self@ =~= old(self)@.update(
            x as int,
            DirView { uclamp, ..old(self)@[x as int] },
        ));
    }

    pub fn set_subtree_pids(&mut self, x: usize, subtree_pids: bool)
        requires
            x < old(self)@.len(),
        ensures
            final(self)@ == old(self)@.update(
                x as int,
                DirView { subtree_pids, ..old(self)@[x as int] },
            ),
            final(self).hierarchies == old(self).hierarchies,
    {
        self.dirs[x].subtree_pids = subtree_pids;
        assert(self@ =~= old(self)@.update(
            x as int,
            DirView { subtree_pids, ..old(self)@[x as int] },
        ));
    }

    /// Start counting anew, without a limit.
    pub fn restart_pids(&mut self, x: usize, peak: u64)
        requires
            x < old(self)@.len(),
        ensures
            final(self)@ == old(self)@.update(
                x as int,
                DirView { pids_max: None, pids_peak: peak, pids_events_limit: 0, ..old(self)@[x as int] },
            ),
            final(self).hierarchies == old(self).hierarchies,
    {
        self.dirs[x].pids_max = None;
        self.dirs[x].pids_peak = peak;
        self.dirs[x].pids_events_limit = 0;
        assert(self@ =~= old(self)@.update(
            x as int,
            DirView { pids_max: None, pids_peak: peak, pids_events_limit: 0, ..old(self)@[x as int] },
        ));
    }

    pub fn pid_publication(&self, x: usize, pid: u64) -> (publication: Option<usize>)
        requires
            x < self@.len(),
        ensures
            publication == self@[x as int].pids.get(pid),
    {
        assert(self.dirs@[x as int]@ == self@[x as int]);
        self.dirs[x].pids.get(pid)
    }

    /// The number of processes in the table of a directory, reservations counted.
    pub fn pid_count(&self, x: usize) -> (count: usize)
        requires
            x < self@.len(),
        ensures
            count == self@[x as int].pids.dom().len(),
    {
        assert(self.dirs@[x as int]@ == self@[x as int]);
        self.dirs[x].pids.len()
    }

    pub fn version_of(&self, x: usize) -> (v: CgroupVersion)
        requires
            self.indexed(),
            x < self@.len(),
        ensures
            v == version(self.hierarchies@, self@, x as int),
    {
        assert(self.dirs@[x as int]@ == self@[x as int]);
        self.hierarchies[self.dirs[x].hierarchy].version
    }

    pub fn parent_index(&self, x: usize) -> (parent: Option<usize>)
        requires
            self.indexed(),
            x < self@.len(),
        ensures
            parent matches Some(p) ==> parent_of(self@, x as int) == Some(p as int) && p
                < self@.len(),
            parent is None ==> parent_of(self@, x as int) is None,
    {
        assert(self.dirs@[x as int]@ == self@[x as int]);
        match self.dirs[x].parent {
            Some(p) => {
                assert(self.dirs@[p as int]@ == self@[p as int]);
                if self.dirs[p].live {
                    Some(p)
                } else {
                    None
                }
            },
            None => None,
        }
    }

    /// Whether `candidate` is `ancestor` or lies under it.  A hierarchy deeper
    /// than the admitted bound is malformed, and moves through it are refused.
    pub fn is_same_or_descendant_of(&self, candidate: usize, ancestor: usize) -> (found: bool)
        requires
            self.indexed(),
            candidate < self@.len(),
        ensures
            found == (reaches(self@, candidate as int, ancestor as int, 256) || !ends(
                self@,
                candidate as int,
                256,
            )),
    {
        let mut current: usize = candidate;
        let mut left: usize = MAX_CGROUP_DEPTH;
        while left > 0
            invariant
                self.indexed(),
                current < self@.len(),
                left <= 256,
                reaches(self@, candidate as int, ancestor as int, 256) == reaches(
                    self@,
                    current as int,
                    ancestor as int,
                    left as nat,
                ),
                ends(self@, candidate as int, 256) == ends(self@, current as int, left as nat),
            decreases left,
        {
            if current == ancestor {
                return true;
            }
            left = left - 1;
            match self.parent_index(current) {
                Some(p) => {
                    current = p;
                },
                None => {
                    return false;
                },
            }
        }
        true
    }

    /// The number of directories above `x`.
    pub fn hierarchy_depth(&self, x: usize) -> (result: Result<usize, Error>)
        requires
            self.indexed(),
            x < self@.len(),
        ensures
            result is Ok <==> ends(self@, x as int, 257),
            result matches Ok(d) ==> d == depth(self@, x as int, 257) && d <= MAX_CGROUP_DEPTH,
            result matches Err(error) ==> error == Error::FilesystemLoop,
    {
        let mut current: usize = x;
        let mut count: usize = 0;
        while count <= MAX_CGROUP_DEPTH
            invariant
                self.indexed(),
                current < self@.len(),
                count <= 257,
                depth(self@, x as int, 257) == count + depth(
                    self@,
                    current as int,
                    (257 - count) as nat,
                ),
                ends(self@, x as int, 257) == ends(self@, current as int, (257 - count) as nat),
            decreases 257 - count,
        {
            match self.parent_index(current) {
                Some(p) => {
                    current = p;
                    count = count + 1;
                },
                None => {
                    return Ok(count);
                },
            }
        }
        Err(Error::FilesystemLoop)
    }

    /// The directories from `x` up to its root.
    pub fn cgroup_ancestor_chain(&self, x: usize) -> (walk: Vec<usize>)
        requires
            self.indexed(),
            x < self@.len(),
        ensures
            walk@.map_values(|i: usize| i as int) == chain(self@, x as int, self@.len()),
            forall|i: int| 0 <= i < walk@.len() ==> #[trigger] walk@[i] < self@.len(),
    {
        let mut walk: Vec<usize> = Vec::new();
        let mut current: usize = x;
        let mut left: usize = self.dirs.len();
        assert(chain(self@, x as int, self@.len()) =~= walk@.map_values(|i: usize| i as int) + chain(
            self@,
            x as int,
            self@.len(),
        ));
        while left > 0
            invariant
                self.indexed(),
                current < self@.len(),
                left <= self@.len(),
                chain(self@, x as int, self@.len()) == walk@.map_values(|i: usize| i as int) + chain(
                    self@,
                    current as int,
                    left as nat,
                ),
                forall|i: int| 0 <= i < walk@.len() ==> #[trigger] walk@[i] < self@.len(),
            decreases left,
        {
            let ghost before = walk@.map_values(|i: usize| i as int);
            let ghost rest = chain(self@, current as int, left as nat);
            walk.push(current);
            assert(walk@.map_values(|i: usize| i as int) =~= before.push(current as int));
            left = left - 1;
            match self.parent_index(current) {
                Some(p) => {
                    assert(rest == seq![current as int] + chain(self@, p as int, left as nat));
                    current = p;
                    assert(before + rest =~= before.push(rest[0]) + chain(
                        self@,
                        current as int,
                        left as nat,
                    ));
                },
                None => {
                    assert(before + rest =~= before.push(current as int));
                    return walk;
                },
            }
        }
        assert(walk@.map_values(|i: usize| i as int) + Seq::<int>::empty() =~= walk@.map_values(
            |i: usize| i as int,
        ));
        walk
    }

    /// The stable identities from a root down to `x`.
    pub fn bpf_cgroup_hierarchy(&self, x: usize) -> (result: Result<Vec<u64>, Error>)
        requires
            self.indexed(),
            x < self@.len(),
        ensures
            version(self.hierarchies@, self@, x as int) != CgroupVersion::V2 ==> result == Err::<Vec<u64>, Error>(
                Error::InvalidInput,
            ),
            version(self.hierarchies@, self@, x as int) == CgroupVersion::V2 && !ends(self@, x as int, 257) ==> result
                == Err::<Vec<u64>, Error>(Error::BadState),
            version(self.hierarchies@, self@, x as int) == CgroupVersion::V2 && ends(self@, x as int, 257) ==> (result
                matches Ok(inodes) && inodes@ == chain(self@, x as int, self@.len()).reverse().map_values(
                |i: int| self@[i].inode,
            )),
    {
        if self.version_of(x) != CgroupVersion::V2 {
            return Err(Error::InvalidInput);
        }
        if self.hierarchy_depth(x).is_err() {
            return Err(Error::BadState);
        }
        let walk = self.cgroup_ancestor_chain(x);
        let mut inodes: Vec<u64> = Vec::new();
        let mut left: usize = walk.len();
        while left > 0
            invariant
                left <= walk@.len(),
                forall|i: int| 0 <= i < walk@.len() ==> #[trigger] walk@[i] < self@.len(),
                inodes@.len() == walk@.len() - left,
                forall|i: int|
                    0 <= i < inodes@.len() ==> #[trigger] inodes@[i] == self@[walk@[walk@.len() - 1
                        - i] as int].inode,
            decreases left,
        {
            left = left - 1;
            let dir: usize = walk[left];
            assert(self.dirs@[dir as int]@ == self@[dir as int]);
            inodes.push(self.dirs[dir].inode);
        }
        proof {
            let up = chain(self@, x as int, self@.len());
            assert forall|i: int| 0 <= i < inodes@.len() implies #[trigger] inodes@[i]
                == up.reverse().map_values(|i: int| self@[i].inode)[i] by {
                assert(up[up.len() - 1 - i] == walk@[walk@.len() - 1 - i]);
            }
            assert(inodes@ =~= up.reverse().map_values(|i: int| self@[i].inode));
        }
        Ok(inodes)
    }

    /// Whether `x` is frozen, by its own request or by one above it.  One that is so deep
    /// that the walk does not come past its root counts as frozen.
    pub fn is_effectively_frozen(&self, x: usize) -> (frozen: bool)
        requires
            self.indexed(),
            x < self@.len(),
        ensures
            frozen == frozen_above(self@, x as int, 256),
    {
        let mut current: usize = x;
        let mut left: usize = MAX_CGROUP_DEPTH;
        while left > 0
            invariant
                self.indexed(),
                current < self@.len(),
                left <= 256,
                frozen_above(self@, x as int, 256) == frozen_above(
                    self@,
                    current as int,
                    left as nat,
                ),
            decreases left,
        {
            assert(self.dirs@[current as int]@ == self@[current as int]);
            if self.dirs[current].frozen {
                return true;
            }
            left = left - 1;
            match self.parent_index(current) {
                Some(p) => {
                    current = p;
                },
                None => {
                    return false;
                },
            }
        }
        true
    }

    /// The clamp that applies in `x`: the system-wide bounds, narrowed through
    /// the parents.
    pub fn uclamp_effective(&self, x: usize, minimum: u16, maximum: u16) -> (clamp: (u16, u16))
        requires
            self.indexed(),
            x < self@.len(),
        ensures
            clamp == effective_clamp(self@, x as int, (minimum, maximum)),
    {
        let mut low: u16 = minimum;
        let mut high: u16 = maximum;
        let mut current: usize = x;
        let mut left: usize = MAX_CGROUP_STEPS;
        while left > 0
            invariant_except_break
                narrowed(self@, x as int, 257, (minimum, maximum)) == narrowed(
                    self@,
                    current as int,
                    left as nat,
                    (low, high),
                ),
            invariant
                self.indexed(),
                current < self@.len(),
                left <= 257,
            ensures
                narrowed(self@, x as int, 257, (minimum, maximum)) == (low, high),
            decreases left,
        {
            assert(self.dirs@[current as int]@ == self@[current as int]);
            let (min, max) = self.dirs[current].uclamp;
            if min > low {
                low = min;
            }
            if max < high {
                high = max;
            }
            left = left - 1;
            match self.parent_index(current) {
                Some(p) => {
                    current = p;
                },
                None => {
                    break ;
                },
            }
        }
        if low <= high {
            (low, high)
        } else {
            (high, high)
        }
    }

    pub fn pids_controller_active(&self, x: usize) -> (active: bool)
        requires
            self.indexed(),
            x < self@.len(),
        ensures
            active == pids_active(self.hierarchies@, self@, x as int),
    {
        assert(self.dirs@[x as int]@ == self@[x as int]);
        match self.version_of(x) {
            CgroupVersion::V1 => list_contains(
                &self.hierarchies[self.dirs[x].hierarchy].controllers,
                "pids",
            ),
            CgroupVersion::V2 => match self.parent_index(x) {
                Some(p) => {
                    assert(self.dirs@[p as int]@ == self@[p as int]);
                    self.dirs[p].subtree_pids
                },
                None => false,
            },
        }
    }

    pub fn cpu_controller_active(&self, x: usize) -> (active: bool)
        requires
            self.indexed(),
            x < self@.len(),
        ensures
            active == cpu_active(self.hierarchies@, self@, x as int),
    {
        assert(self.dirs@[x as int]@ == self@[x as int]);
        match self.version_of(x) {
            CgroupVersion::V1 => list_contains(
                &self.hierarchies[self.dirs[x].hierarchy].controllers,
                "cpu",
            ),
            CgroupVersion::V2 => false,
        }
    }

    pub fn v2_has_enabled_child_controllers(&self, x: usize) -> (internal: bool)
        requires
            self.indexed(),
            x < self@.len(),
        ensures
            internal == is_internal(self.hierarchies@, self@, x as int),
    {
        assert(self.dirs@[x as int]@ == self@[x as int]);
        self.version_of(x) == CgroupVersion::V2 && self.dirs[x].parent.is_some()
            && self.dirs[x].subtree_pids
    }

    /// Whether `x` is `d` or is found below it through the directories' tables.
    pub fn is_below(&self, x: usize, d: usize) -> (found: bool)
        requires
            self.indexed(),
            x < self@.len(),
        ensures
            found == below(self@, x as int, d as int, 257),
    {
        let mut current: usize = x;
        let mut left: usize = MAX_CGROUP_STEPS;
        while left > 0
            invariant
                self.indexed(),
                current < self@.len(),
                left <= 257,
                below(self@, x as int, d as int, 257) == below(
                    self@,
                    current as int,
                    d as int,
                    left as nat,
                ),
            decreases left,
        {
            if current == d {
                return true;
            }
            assert(self.dirs@[current as int]@ == self@[current as int]);
            if !self.dirs[current].linked {
                return false;
            }
            left = left - 1;
            match self.parent_index(current) {
                Some(p) => {
                    current = p;
                },
                None => {
                    return false;
                },
            }
        }
        false
    }

    /// Counts both published members and invisible fork reservations in `d` and
    /// below it.  This is used only for limit decisions, never for what readers
    /// see.
    pub fn recursive_admitted_pid_count(&self, d: usize) -> (count: u128)
        requires
            self.indexed(),
            d < self@.len(),
        ensures
            count == admitted(self@, d as int),
    {
        let mut count: u128 = 0;
        let mut x: usize = 0;
        while x < self.dirs.len()
            invariant
                self.indexed(),
                x <= self@.len(),
                count == admitted_among(self@, d as int, x as nat),
                count <= x * 0xffff_ffff_ffff_ffff,
            decreases self@.len() - x,
        {
            assert(self.dirs@[x as int]@ == self@[x as int]);
            if self.is_below(x, d) {
                let members: usize = self.dirs[x].pids.len();
                count = count + members as u128;
            }
            x = x + 1;
        }
        count
    }

    /// The nearest directory at or above `x` that has no room for one more member.
    pub fn limiting_dir_for_fork(&self, x: usize) -> (full: Option<usize>)
        requires
            self.indexed(),
            x < self@.len(),
        ensures
            full matches Some(l) ==> limiting(self.hierarchies@, self@, x as int, self@.len())
                == Some(l as int) && l < self@.len(),
            full is None ==> limiting(self.hierarchies@, self@, x as int, self@.len()) is None,
    {
        let mut current: usize = x;
        let mut left: usize = self.dirs.len();
        while left > 0
            invariant
                self.indexed(),
                current < self@.len(),
                left <= self@.len(),
                limiting(self.hierarchies@, self@, x as int, self@.len()) == limiting(
                    self.hierarchies@,
                    self@,
                    current as int,
                    left as nat,
                ),
            decreases left,
        {
            assert(self.dirs@[current as int]@ == self@[current as int]);
            if self.pids_controller_active(current) {
                if let Some(limit) = self.dirs[current].pids_max {
                    if self.recursive_admitted_pid_count(current) >= limit as u128 {
                        return Some(current);
                    }
                }
            }
            left = left - 1;
            match self.parent_index(current) {
                Some(p) => {
                    current = p;
                },
                None => {
                    return None;
                },
            }
        }
        None
    }
}

} // verus!
