//! What a process is told of its directories: namespace roots, relative paths and
//! the membership texts.

use vstd::prelude::*;
use vstd::utf8::encode_utf8;
use crate::bytes::push_bytes;
use crate::cgroup::forest::{chain, CgroupVersion, DirView, Forest, Hierarchy};
use crate::cgroup::lookup::targets;
use crate::cgroup::namespace::{find_hierarchy, hierarchy_opened, names, MAX_CGROUP_HIERARCHIES};
use crate::cgroup::options::{join, joined, v2_controllers};
use crate::cgroup::registry::PidMembershipRegistry;
use crate::error::Error;
use crate::text::{list_contains, lists, push_text};

verus! {

/// The directories that a control group namespace shows as the roots of the
/// hierarchies that there were when it was made.
///
/// It keeps directories rather than path names: renames above a root do not change
/// what the namespace shows.
pub struct CgroupNamespaceRoots {
    pub roots: Vec<usize>,
}

/// The root that a namespace shows of hierarchy `h`.  A hierarchy that was made
/// later shows its own root, since the namespace's maker had no place in it.
pub open spec fn shown_root(hs: Seq<Hierarchy>, roots: Seq<usize>, h: int) -> usize {
    if h < roots.len() {
        roots[h]
    } else {
        hs[h].root
    }
}

/// The number of directories that two walks end with alike.
pub open spec fn common(a: Seq<int>, b: Seq<int>) -> nat
    decreases a.len(),
{
    if a.len() > 0 && b.len() > 0 && a[a.len() - 1] == b[b.len() - 1] {
        1 + common(a.subrange(0, a.len() - 1), b.subrange(0, b.len() - 1))
    } else {
        0
    }
}

/// `n` steps up.
pub open spec fn ups(n: nat) -> Seq<u8>
    decreases n,
{
    if n == 0 {
        Seq::empty()
    } else {
        ups((n - 1) as nat) + seq![46u8, 46u8, 47u8]
    }
}

/// Whether the file system layer still holds the entry of directory `x`, where `held`
/// says so of each directory.
pub open spec fn entry_held(held: Seq<bool>, x: int) -> bool {
    0 <= x < held.len() && held[x]
}

/// The name that a path shows of a directory: that of its entry, while it is held.
pub open spec fn entry_name(ds: Seq<DirView>, held: Seq<bool>, x: int) -> Seq<u8> {
    if entry_held(held, x) {
        ds[x].name
    } else {
        Seq::empty()
    }
}

/// The names of the first `n` directories of a walk up, from the last of them down.
/// One without a name takes no place.
pub open spec fn downs(ds: Seq<DirView>, held: Seq<bool>, walk: Seq<int>, n: nat) -> Seq<u8>
    decreases n,
{
    if n == 0 {
        Seq::empty()
    } else {
        let name = entry_name(ds, held, walk[n - 1]);
        (if name.len() == 0 {
            Seq::empty()
        } else {
            name.push(47u8)
        }) + downs(ds, held, walk, (n - 1) as nat)
    }
}

/// A path without the slash at its end, unless it is nothing else.
pub open spec fn closed(path: Seq<u8>) -> Seq<u8> {
    if path.len() > 1 && path[path.len() - 1] == 47u8 {
        path.subrange(0, path.len() - 1)
    } else {
        path
    }
}

/// The path of `dir` as seen from `root`.
pub open spec fn relative_path(ds: Seq<DirView>, held: Seq<bool>, dir: int, root: int) -> Seq<u8> {
    let down = chain(ds, dir, ds.len());
    let up = chain(ds, root, ds.len());
    let shared = common(down, up);
    closed(
        seq![47u8] + ups((up.len() - shared) as nat) + downs(
            ds,
            held,
            down,
            (down.len() - shared) as nat,
        ),
    )
}

/// The line of one membership.
pub open spec fn membership_line(
    hs: Seq<Hierarchy>,
    ds: Seq<DirView>,
    held: Seq<bool>,
    roots: Seq<usize>,
    h: int,
    dir: int,
) -> Seq<u8> {
    (match hs[h].version {
        CgroupVersion::V2 => encode_utf8("0::"@),
        CgroupVersion::V1 => encode_utf8("1:"@) + encode_utf8(
            joined(hs[h].controllers@, ',', hs[h].controllers@.len()),
        ) + encode_utf8(":"@),
    }) + relative_path(ds, held, dir, shown_root(hs, roots, h) as int).push(10u8)
}

/// The lines of the first `n` memberships.
pub open spec fn membership_lines(
    hs: Seq<Hierarchy>,
    ds: Seq<DirView>,
    held: Seq<bool>,
    roots: Seq<usize>,
    found: Seq<(usize, usize)>,
    n: nat,
) -> Seq<u8>
    decreases n,
{
    if n == 0 {
        Seq::empty()
    } else {
        membership_lines(hs, ds, held, roots, found, (n - 1) as nat) + membership_line(
            hs,
            ds,
            held,
            roots,
            found[n - 1].0 as int,
            found[n - 1].1 as int,
        )
    }
}

/// The first membership from number `i` on whose hierarchy has the controller of
/// processor sets, or is the unified one.
pub open spec fn first_of(
    hs: Seq<Hierarchy>,
    found: Seq<(usize, usize)>,
    cpuset: bool,
    i: nat,
) -> Option<(usize, usize)>
    decreases found.len() - i,
{
    if i >= found.len() {
        None
    } else if if cpuset {
        lists(hs[found[i as int].0 as int].controllers@, "cpuset"@)
    } else {
        hs[found[i as int].0 as int].version == CgroupVersion::V2
    } {
        Some(found[i as int])
    } else {
        first_of(hs, found, cpuset, i + 1)
    }
}

/// The processor set line of a process.
pub open spec fn cpuset_line(
    hs: Seq<Hierarchy>,
    ds: Seq<DirView>,
    held: Seq<bool>,
    roots: Seq<usize>,
    found: Seq<(usize, usize)>,
) -> Seq<u8> {
    let at = match first_of(hs, found, true, 0) {
        Some(m) => Some(m),
        None => first_of(hs, found, false, 0),
    };
    match at {
        Some(m) => relative_path(
            ds,
            held,
            m.1 as int,
            shown_root(hs, roots, m.0 as int) as int,
        ).push(10u8),
        None => encode_utf8("/\n"@),
    }
}

/// Directories of a namespace's roots.
pub open spec fn roots_exist(forest: Forest, roots: Seq<usize>) -> bool {
    forall|h: int| 0 <= h < roots.len() ==> #[trigger] roots[h] < forest@.len()
}

impl Forest {
    /// The path of `dir` as seen from `root`.
    ///
    /// It goes by the directories' parents, never by a path name: a directory
    /// outside the view is shown through steps up, and not by a name that only
    /// the host sees.  `held` says of each directory whether the file system layer
    /// still holds its entry, which is what has a name.
    pub fn cgroup_relative_path(&self, held: &[bool], dir: usize, root: usize) -> (path: Vec<u8>)
        requires
            self.indexed(),
            dir < self@.len(),
            root < self@.len(),
        ensures
            path@ == relative_path(self@, held@, dir as int, root as int),
    {
        let down = self.cgroup_ancestor_chain(dir);
        let up = self.cgroup_ancestor_chain(root);
        let ghost a = chain(self@, dir as int, self@.len());
        let ghost b = chain(self@, root as int, self@.len());
        assert(a.len() == down@.len() && b.len() == up@.len());
        let mut below: usize = down.len();
        let mut above: usize = up.len();
        assert(a.subrange(0, a.len() as int) =~= a);
        assert(b.subrange(0, b.len() as int) =~= b);
        while below != 0 && above != 0 && down[below - 1] == up[above - 1]
            invariant
                below <= down@.len(),
                above <= up@.len(),
                down@.map_values(|i: usize| i as int) == a,
                up@.map_values(|i: usize| i as int) == b,
                a.len() == down@.len(),
                b.len() == up@.len(),
                down@.len() - below == up@.len() - above,
                common(a, b) == (down@.len() - below) + common(
                    a.subrange(0, below as int),
                    b.subrange(0, above as int),
                ),
            decreases below,
        {
            assert(a[below - 1] == down@[below - 1] && b[above - 1] == up@[above - 1]);
            assert(a.subrange(0, below as int).subrange(0, below - 1) =~= a.subrange(0, below - 1));
            assert(b.subrange(0, above as int).subrange(0, above - 1) =~= b.subrange(0, above - 1));
            below = below - 1;
            above = above - 1;
        }
        assert(below > 0 && above > 0 ==> a[below - 1] == down@[below - 1] && b[above - 1]
            == up@[above - 1]);
        assert(common(a, b) == down@.len() - below);
        let mut path: Vec<u8> = Vec::new();
        path.push(47);
        let mut n: usize = 0;
        assert(path@ =~= seq![47u8] + ups(0));
        while n < above
            invariant
                n <= above,
                path@ == seq![47u8] + ups(n as nat),
            decreases above - n,
        {
            let ghost before = path@;
            path.push(46);
            path.push(46);
            path.push(47);
            assert(path@ =~= seq![47u8] + ups((n + 1) as nat));
            n = n + 1;
        }
        let ghost start = path@;
        let mut left: usize = below;
        assert(start + downs(self@, held@, a, below as nat) =~= path@ + downs(self@, held@, a, left as nat));
        while left > 0
            invariant
                left <= below <= down@.len(),
                self.indexed(),
                down@.map_values(|i: usize| i as int) == a,
                forall|i: int| 0 <= i < down@.len() ==> #[trigger] down@[i] < self@.len(),
                start + downs(self@, held@, a, below as nat) == path@ + downs(self@, held@, a, left as nat),
            decreases left,
        {
            let x: usize = down[left - 1];
            assert(a[left - 1] == x);
            assert(self.dirs@[x as int]@ == self@[x as int]);
            let ghost before = path@;
            if x < held.len() && held[x] && self.dirs[x].name.len() > 0 {
                push_bytes(&mut path, self.dirs[x].name.as_slice());
                path.push(47);
                assert(path@ =~= before + self@[x as int].name.push(47u8));
            }
            assert(before + downs(self@, held@, a, left as nat) =~= path@ + downs(
                self@,
                held@,
                a,
                (left - 1) as nat,
            ));
            left = left - 1;
        }
        assert(path@ =~= start + downs(self@, held@, a, below as nat));
        if path.len() > 1 && path[path.len() - 1] == 47 {
            let ghost whole = path@;
            path.pop();
            assert(path@ =~= whole.subrange(0, whole.len() - 1));
        }
        path
    }

    /// The root that a namespace shows of hierarchy `h`.
    pub fn root_for(&self, roots: &CgroupNamespaceRoots, h: usize) -> (root: usize)
        requires
            h < self.hierarchies@.len(),
        ensures
            root == shown_root(self.hierarchies@, roots.roots@, h as int),
    {
        if h < roots.roots.len() {
            roots.roots[h]
        } else {
            self.hierarchies[h].root
        }
    }

    /// The roots of every hierarchy.
    pub fn live_roots(&self) -> (roots: CgroupNamespaceRoots)
        requires
            self.rooted(),
        ensures
            roots.roots@ == self.hierarchies@.map_values(|h: Hierarchy| h.root),
            roots_exist(*self, roots.roots@),
    {
        let mut roots: Vec<usize> = Vec::new();
        let mut h: usize = 0;
        while h < self.hierarchies.len()
            invariant
                h <= self.hierarchies@.len(),
                roots@.len() == h,
                self.rooted(),
                forall|g: int| 0 <= g < h ==> #[trigger] roots@[g] == self.hierarchies@[g].root,
            decreases self.hierarchies@.len() - h,
        {
            roots.push(self.hierarchies[h].root);
            h = h + 1;
        }
        assert(roots@ =~= self.hierarchies@.map_values(|h: Hierarchy| h.root));
        assert forall|g: int| 0 <= g < roots@.len() implies #[trigger] roots@[g] < self@.len() by {
            assert(self.hierarchies@[g].root < self@.len());
        }
        CgroupNamespaceRoots { roots }
    }

    /// The roots of the initial namespace.  Both hierarchies that a namespace can
    /// show are made first where they are not there yet.
    pub fn root_namespace_roots(&mut self, now: u64) -> (result: Result<CgroupNamespaceRoots, Error>)
        requires
            old(self).wf(),
            old(self)@.len() + 1 < usize::MAX,
        ensures
            final(self).wf(),
            match result {
                Ok(roots) => {
                    &&& roots.roots@ == final(self).hierarchies@.map_values(
                        |h: Hierarchy| h.root,
                    )
                    &&& roots_exist(*final(self), roots.roots@)
                    &&& exists|middle: Forest, first: usize, second: usize|
                        {
                            &&& #[trigger] hierarchy_opened(
                                *old(self),
                                middle,
                                CgroupVersion::V2,
                                seq!["pids"@],
                                now,
                                Ok(first),
                            )
                            &&& #[trigger] hierarchy_opened(
                                middle,
                                *final(self),
                                CgroupVersion::V1,
                                seq!["pids"@],
                                now,
                                Ok(second),
                            )
                        }
                },
                Err(error) => {
                    ||| hierarchy_opened(
                        *old(self),
                        *final(self),
                        CgroupVersion::V2,
                        seq!["pids"@],
                        now,
                        Err(error),
                    )
                    ||| exists|middle: Forest, first: usize|
                        {
                            &&& #[trigger] hierarchy_opened(
                                *old(self),
                                middle,
                                CgroupVersion::V2,
                                seq!["pids"@],
                                now,
                                Ok(first),
                            )
                            &&& hierarchy_opened(
                                middle,
                                *final(self),
                                CgroupVersion::V1,
                                seq!["pids"@],
                                now,
                                Err(error),
                            )
                        }
                },
            },
            old(self).hierarchies@.len() + 2 <= MAX_CGROUP_HIERARCHIES ==> result is Ok,
    {
        let first: Result<usize, Error> = self.cgroup_hierarchy(
            CgroupVersion::V2,
            v2_controllers(),
            now,
        );
        if let Err(error) = first {
            return Err(error);
        }
        let ghost middle = *self;
        let second: Result<usize, Error> = self.cgroup_hierarchy(
            CgroupVersion::V1,
            v2_controllers(),
            now,
        );
        if let Err(error) = second {
            assert(hierarchy_opened(
                *old(self),
                middle,
                CgroupVersion::V2,
                seq!["pids"@],
                now,
                Ok(first->Ok_0),
            ));
            return Err(error);
        }
        assert(hierarchy_opened(
            *old(self),
            middle,
            CgroupVersion::V2,
            seq!["pids"@],
            now,
            Ok(first->Ok_0),
        ));
        assert(hierarchy_opened(
            middle,
            *self,
            CgroupVersion::V1,
            seq!["pids"@],
            now,
            Ok(second->Ok_0),
        ));
        Ok(self.live_roots())
    }
}

/// What a mount shows: a hierarchy, from a directory of it down.
///
/// A hierarchy is not part of any mount: a second mount of the same controllers
/// shows the same directories.
#[derive(Clone, Copy, Debug, PartialEq, Eq, Structural)]
pub struct CgroupMountView {
    pub hierarchy: usize,
    pub root: usize,
}

/// Whether a mount can start at a directory: its entry has to be held.  A hierarchy
/// holds that of its own root.
pub open spec fn mountable(hs: Seq<Hierarchy>, held: Seq<bool>, h: int, root: usize) -> bool {
    root == hs[h].root || entry_held(held, root as int)
}

impl CgroupMountView {
    /// The view of hierarchy `hierarchy` from `root` down, where `held` says of each
    /// directory whether the file system layer still holds its entry.
    pub fn try_new(forest: &Forest, held: &[bool], hierarchy: usize, root: usize) -> (result: Result<
        CgroupMountView,
        Error,
    >)
        requires
            hierarchy < forest.hierarchies@.len(),
        ensures
            result == (if mountable(forest.hierarchies@, held@, hierarchy as int, root) {
                Ok(CgroupMountView { hierarchy, root })
            } else {
                Err(Error::InvalidInput)
            }),
    {
        if root == forest.hierarchies[hierarchy].root || (root < held.len() && held[root]) {
            Ok(CgroupMountView { hierarchy, root })
        } else {
            Err(Error::InvalidInput)
        }
    }
}

/// What a mount of a hierarchy's own root shows.
pub open spec fn whole_view(
    before: Forest,
    after: Forest,
    version: CgroupVersion,
    controllers: Seq<Seq<char>>,
    now: u64,
    result: Result<CgroupMountView, Error>,
) -> bool {
    match result {
        Ok(view) => {
            &&& hierarchy_opened(before, after, version, controllers, now, Ok(view.hierarchy))
            &&& view.root == after.hierarchies@[view.hierarchy as int].root
        },
        Err(error) => hierarchy_opened(before, after, version, controllers, now, Err(error)),
    }
}

/// What a mount shows in a namespace with these roots.  One whose root has no entry
/// any more is refused, though the hierarchy is there.
pub open spec fn namespace_view(
    before: Forest,
    after: Forest,
    held: Seq<bool>,
    roots: Seq<usize>,
    version: CgroupVersion,
    controllers: Seq<Seq<char>>,
    now: u64,
    result: Result<CgroupMountView, Error>,
) -> bool {
    let hs = after.hierarchies@;
    match result {
        Ok(view) => {
            &&& hierarchy_opened(before, after, version, controllers, now, Ok(view.hierarchy))
            &&& view.root == shown_root(hs, roots, view.hierarchy as int)
            &&& mountable(hs, held, view.hierarchy as int, view.root)
        },
        Err(error) => {
            ||| hierarchy_opened(before, after, version, controllers, now, Err(error))
            ||| exists|h: usize|
                {
                    &&& #[trigger] hierarchy_opened(
                        before,
                        after,
                        version,
                        controllers,
                        now,
                        Ok(h),
                    )
                    &&& !mountable(hs, held, h as int, shown_root(hs, roots, h as int))
                    &&& error == Error::InvalidInput
                }
        },
    }
}

/// Mount the hierarchy of these controllers.
pub fn new_cgroup_v1(forest: &mut Forest, controllers: Vec<String>, now: u64) -> (result: Result<
    CgroupMountView,
    Error,
>)
    requires
        old(forest).wf(),
        old(forest)@.len() < usize::MAX,
    ensures
        final(forest).wf(),
        whole_view(
            *old(forest),
            *final(forest),
            CgroupVersion::V1,
            names(controllers@),
            now,
            result,
        ),
{
    match forest.cgroup_hierarchy(CgroupVersion::V1, controllers, now) {
        Ok(hierarchy) => {
            proof {
                found_within(old(forest).hierarchies@, CgroupVersion::V1, names(controllers@), 0);
            }
            Ok(CgroupMountView { hierarchy, root: forest.hierarchies[hierarchy].root })
        },
        Err(error) => Err(error),
    }
}

/// Mount the unified hierarchy.
pub fn new_cgroup_v2(forest: &mut Forest, now: u64) -> (result: Result<CgroupMountView, Error>)
    requires
        old(forest).wf(),
        old(forest)@.len() < usize::MAX,
    ensures
        final(forest).wf(),
        whole_view(*old(forest), *final(forest), CgroupVersion::V2, seq!["pids"@], now, result),
{
    match forest.cgroup_hierarchy(CgroupVersion::V2, v2_controllers(), now) {
        Ok(hierarchy) => {
            proof {
                found_within(old(forest).hierarchies@, CgroupVersion::V2, seq!["pids"@], 0);
            }
            Ok(CgroupMountView { hierarchy, root: forest.hierarchies[hierarchy].root })
        },
        Err(error) => Err(error),
    }
}

/// Mount the hierarchy of these controllers in a namespace.
pub fn new_cgroup_v1_for_namespace(
    forest: &mut Forest,
    held: &[bool],
    controllers: Vec<String>,
    roots: &CgroupNamespaceRoots,
    now: u64,
) -> (result: Result<CgroupMountView, Error>)
    requires
        old(forest).wf(),
        old(forest)@.len() < usize::MAX,
    ensures
        final(forest).wf(),
        namespace_view(
            *old(forest),
            *final(forest),
            held@,
            roots.roots@,
            CgroupVersion::V1,
            names(controllers@),
            now,
            result,
        ),
{
    match forest.cgroup_hierarchy(CgroupVersion::V1, controllers, now) {
        Ok(hierarchy) => {
            proof {
                found_within(old(forest).hierarchies@, CgroupVersion::V1, names(controllers@), 0);
            }
            let root: usize = forest.root_for(roots, hierarchy);
            let result = CgroupMountView::try_new(forest, held, hierarchy, root);
            assert(hierarchy_opened(
                *old(forest),
                *forest,
                CgroupVersion::V1,
                names(controllers@),
                now,
                Ok(hierarchy),
            ));
            result
        },
        Err(error) => Err(error),
    }
}

/// Mount the unified hierarchy in a namespace.
pub fn new_cgroup_v2_for_namespace(
    forest: &mut Forest,
    held: &[bool],
    roots: &CgroupNamespaceRoots,
    now: u64,
) -> (result: Result<CgroupMountView, Error>)
    requires
        old(forest).wf(),
        old(forest)@.len() < usize::MAX,
    ensures
        final(forest).wf(),
        namespace_view(
            *old(forest),
            *final(forest),
            held@,
            roots.roots@,
            CgroupVersion::V2,
            seq!["pids"@],
            now,
            result,
        ),
{
    match forest.cgroup_hierarchy(CgroupVersion::V2, v2_controllers(), now) {
        Ok(hierarchy) => {
            proof {
                found_within(old(forest).hierarchies@, CgroupVersion::V2, seq!["pids"@], 0);
            }
            let root: usize = forest.root_for(roots, hierarchy);
            let result = CgroupMountView::try_new(forest, held, hierarchy, root);
            assert(hierarchy_opened(
                *old(forest),
                *forest,
                CgroupVersion::V2,
                seq!["pids"@],
                now,
                Ok(hierarchy),
            ));
            result
        },
        Err(error) => Err(error),
    }
}

proof fn found_within(
    hs: Seq<Hierarchy>,
    version: CgroupVersion,
    controllers: Seq<Seq<char>>,
    h: nat,
)
    ensures
        find_hierarchy(hs, version, controllers, h) matches Some(found) ==> {
            &&& h <= found < hs.len()
            &&& hs[found].version == version
            &&& names(hs[found].controllers@) == controllers
        },
    decreases hs.len() - h,
{
    if h < hs.len() {
        found_within(hs, version, controllers, h + 1);
    }
}

/// Two mounts of the same controllers show the same hierarchy: the second makes
/// nothing.
pub proof fn law_a_second_mount_shows_the_same_hierarchy(
    before: Forest,
    middle: Forest,
    after: Forest,
    version: CgroupVersion,
    controllers: Seq<Seq<char>>,
    then: u64,
    now: u64,
    first: usize,
    second: Result<usize, Error>,
)
    requires
        hierarchy_opened(before, middle, version, controllers, then, Ok(first)),
        hierarchy_opened(middle, after, version, controllers, now, second),
        before.hierarchies@.len() <= usize::MAX,
    ensures
        second == Ok::<usize, Error>(first),
        after@ == middle@,
        after.hierarchies == middle.hierarchies,
{
    let hs = before.hierarchies@;
    found_within(hs, version, controllers, 0);
    if find_hierarchy(hs, version, controllers, 0) is None {
        appended_is_found(hs, middle.hierarchies@[hs.len() as int], version, controllers, 0);
        found_within(middle.hierarchies@, version, controllers, 0);
    }
}

/// A hierarchy that is appended is the one found where none was before.
proof fn appended_is_found(
    hs: Seq<Hierarchy>,
    made: Hierarchy,
    version: CgroupVersion,
    controllers: Seq<Seq<char>>,
    h: nat,
)
    requires
        h <= hs.len(),
        find_hierarchy(hs, version, controllers, h) is None,
        made.version == version,
        names(made.controllers@) == controllers,
    ensures
        find_hierarchy(hs.push(made), version, controllers, h) == Some(hs.len() as int),
    decreases hs.len() - h,
{
    if h < hs.len() {
        assert(hs.push(made)[h as int] == hs[h as int]);
        appended_is_found(hs, made, version, controllers, h + 1);
    }
}

impl PidMembershipRegistry {
    /// The control groups of a process, one line for each hierarchy.
    pub fn proc_cgroup_membership(
        &self,
        forest: &Forest,
        held: &[bool],
        pid: u64,
        identity: usize,
        roots: &CgroupNamespaceRoots,
    ) -> (text: Vec<u8>)
        requires
            forest.indexed(),
            forest.rooted(),
            self.refers(*forest),
            roots_exist(*forest, roots.roots@),
        ensures
            ({
                let found = targets(
                    self.index(),
                    self.bits(),
                    forest@,
                    pid,
                    Some(identity),
                    true,
                    forest.hierarchies@.len(),
                );
                text@ == (if found.len() == 0 {
                    encode_utf8("0::/\n"@)
                } else {
                    membership_lines(
                        forest.hierarchies@,
                        forest@,
                        held@,
                        roots.roots@,
                        found,
                        found.len(),
                    )
                })
            }),
    {
        let found = self.memberships_for_process(forest, pid, identity);
        let hierarchies: usize = forest.hierarchies.len();
        let mut text: Vec<u8> = Vec::new();
        assert(text@ =~= Seq::empty());
        if found.len() == 0 {
            push_text(&mut text, "0::/\n");
            assert(text@ =~= encode_utf8("0::/\n"@));
            return text;
        }
        proof {
            self.visible_targets_exist(*forest, pid, Some(identity), hierarchies as nat);
            reveal_strlit(",");
        }
        let ghost hs = forest.hierarchies@;
        let mut index: usize = 0;
        while index < found.len()
            invariant
                index <= found@.len(),
                hs == forest.hierarchies@,
                ","@.len() == 1,
                ","@[0] == ',',
                forest.indexed(),
                forest.rooted(),
                roots_exist(*forest, roots.roots@),
                forall|i: int|
                    0 <= i < found@.len() ==> (#[trigger] found@[i]).0 < hs.len() && found@[i].1
                        < forest@.len(),
                text@ == membership_lines(hs, forest@, held@, roots.roots@, found@, index as nat),
            decreases found@.len() - index,
        {
            let (h, dir) = found[index];
            assert(found@[index as int] == (h, dir));
            let ghost before = text@;
            let root: usize = forest.root_for(roots, h);
            assert(root < forest@.len()) by {
                if h < roots.roots@.len() {
                    assert(roots.roots@[h as int] < forest@.len());
                } else {
                    assert(forest.hierarchies@[h as int].root < forest@.len());
                }
            }
            let path = forest.cgroup_relative_path(held, dir, root);
            match forest.hierarchies[h].version {
                CgroupVersion::V2 => {
                    push_text(&mut text, "0::");
                },
                CgroupVersion::V1 => {
                    push_text(&mut text, "1:");
                    let controllers = join(&forest.hierarchies[h].controllers, ",");
                    push_text(&mut text, controllers.as_str());
                    push_text(&mut text, ":");
                },
            }
            push_bytes(&mut text, path.as_slice());
            text.push(10);
            assert(text@ =~= before + membership_line(
                hs,
                forest@,
                held@,
                roots.roots@,
                h as int,
                dir as int,
            ));
            index = index + 1;
        }
        text
    }

    proof fn visible_targets_exist(
        self,
        forest: Forest,
        pid: u64,
        identity: Option<usize>,
        n: nat,
    )
        requires
            self.refers(forest),
            n <= forest.hierarchies@.len(),
            n <= usize::MAX,
        ensures
            ({
                let found = targets(self.index(), self.bits(), forest@, pid, identity, true, n);
                forall|i: int|
                    0 <= i < found.len() ==> (#[trigger] found[i]).0 < n && found[i].1
                        < forest@.len()
            }),
        decreases n,
    {
        if n > 0 {
            self.visible_targets_exist(forest, pid, identity, (n - 1) as nat);
            let h = (n - 1) as usize;
            let rest = targets(
                self.index(),
                self.bits(),
                forest@,
                pid,
                identity,
                true,
                (n - 1) as nat,
            );
            let found = targets(self.index(), self.bits(), forest@, pid, identity, true, n);
            assert forall|i: int| 0 <= i < found.len() implies (#[trigger] found[i]).0 < n
                && found[i].1 < forest@.len() by {
                if i < rest.len() {
                    assert(found[i] == rest[i]);
                } else {
                    assert(self.index().contains_key((pid, h)));
                }
            }
        }
    }

    /// The processor set of a process.
    pub fn proc_cpuset_membership(
        &self,
        forest: &Forest,
        held: &[bool],
        pid: u64,
        identity: usize,
        roots: &CgroupNamespaceRoots,
    ) -> (text: Vec<u8>)
        requires
            forest.indexed(),
            forest.rooted(),
            self.refers(*forest),
            roots_exist(*forest, roots.roots@),
        ensures
            text@ == cpuset_line(
                forest.hierarchies@,
                forest@,
                held@,
                roots.roots@,
                targets(
                    self.index(),
                    self.bits(),
                    forest@,
                    pid,
                    Some(identity),
                    true,
                    forest.hierarchies@.len(),
                ),
            ),
    {
        let found = self.memberships_for_process(forest, pid, identity);
        let hierarchies: usize = forest.hierarchies.len();
        proof {
            self.visible_targets_exist(*forest, pid, Some(identity), hierarchies as nat);
        }
        let at: Option<usize> = match Self::find_first(forest, &found, true) {
            Some(i) => Some(i),
            None => Self::find_first(forest, &found, false),
        };
        match at {
            Some(i) => {
                let (h, dir) = found[i];
                assert(found@[i as int] == (h, dir));
                let root: usize = forest.root_for(roots, h);
                assert(root < forest@.len()) by {
                    if h < roots.roots@.len() {
                        assert(roots.roots@[h as int] < forest@.len());
                    } else {
                        assert(forest.hierarchies@[h as int].root < forest@.len());
                    }
                }
                let mut path = forest.cgroup_relative_path(held, dir, root);
                path.push(10);
                path
            },
            None => {
                let mut text: Vec<u8> = Vec::new();
                push_text(&mut text, "/\n");
                assert(text@ =~= encode_utf8("/\n"@));
                text
            },
        }
    }

    fn find_first(forest: &Forest, found: &Vec<(usize, usize)>, cpuset: bool) -> (at: Option<usize>)
        requires
            forall|i: int|
                0 <= i < found@.len() ==> (#[trigger] found@[i]).0 < forest.hierarchies@.len(),
        ensures
            match at {
                Some(i) => i < found@.len() && first_of(
                    forest.hierarchies@,
                    found@,
                    cpuset,
                    0,
                ) == Some(found@[i as int]),
                None => first_of(forest.hierarchies@, found@, cpuset, 0) is None,
            },
    {
        let mut i: usize = 0;
        while i < found.len()
            invariant
                i <= found@.len(),
                forall|j: int|
                    0 <= j < found@.len() ==> (#[trigger] found@[j]).0 < forest.hierarchies@.len(),
                first_of(forest.hierarchies@, found@, cpuset, 0) == first_of(
                    forest.hierarchies@,
                    found@,
                    cpuset,
                    i as nat,
                ),
            decreases found@.len() - i,
        {
            let h: usize = found[i].0;
            assert(found@[i as int].0 == h);
            let hit: bool = if cpuset {
                list_contains(&forest.hierarchies[h].controllers, "cpuset")
            } else {
                forest.hierarchies[h].version == CgroupVersion::V2
            };
            if hit {
                return Some(i);
            }
            i = i + 1;
        }
        None
    }

    /// The roots of a namespace that is made for a process: its directories, and
    /// the hierarchies' own roots where it is in none.
    pub fn cgroup_namespace_roots(&self, forest: &Forest, pid: u64, identity: usize) -> (result:
        Option<CgroupNamespaceRoots>)
        requires
            forest.rooted(),
            self.refers(*forest),
        ensures
            ({
                let hs = forest.hierarchies@;
                let found = targets(
                    self.index(),
                    self.bits(),
                    forest@,
                    pid,
                    Some(identity),
                    true,
                    hs.len(),
                );
                match result {
                    None => found.len() == 0,
                    Some(roots) => {
                        &&& found.len() > 0
                        &&& roots.roots@.len() == hs.len()
                        &&& roots_exist(*forest, roots.roots@)
                        &&& forall|i: int|
                            0 <= i < found.len() ==> roots.roots@[(#[trigger] found[i]).0 as int]
                                == found[i].1
                        &&& forall|h: int|
                            0 <= h < hs.len() && !(exists|i: int|
                                0 <= i < found.len() && (#[trigger] found[i]).0 == h)
                                ==> #[trigger] roots.roots@[h] == hs[h].root
                    },
                }
            }),
    {
        let found = self.memberships_for_process(forest, pid, identity);
        let hierarchies: usize = forest.hierarchies.len();
        if found.len() == 0 {
            return None;
        }
        proof {
            self.visible_targets_exist(*forest, pid, Some(identity), hierarchies as nat);
            self.targets_ascend(*forest, pid, Some(identity), hierarchies as nat);
        }
        let mut roots = forest.live_roots();
        let ghost hs = forest.hierarchies@;
        let mut n: usize = 0;
        while n < found.len()
            invariant
                n <= found@.len(),
                hs == forest.hierarchies@,
                roots.roots@.len() == hs.len(),
                roots_exist(*forest, roots.roots@),
                forall|i: int|
                    0 <= i < found@.len() ==> (#[trigger] found@[i]).0 < hs.len() && found@[i].1
                        < forest@.len(),
                forall|i: int, j: int|
                    0 <= i < j < found@.len() ==> (#[trigger] found@[i]).0 < (
                    #[trigger] found@[j]).0,
                forall|i: int|
                    0 <= i < n ==> roots.roots@[(#[trigger] found@[i]).0 as int] == found@[i].1,
                forall|h: int|
                    0 <= h < hs.len() && !(exists|i: int|
                        0 <= i < n && (#[trigger] found@[i]).0 == h) ==> #[trigger] roots.roots@[h]
                        == hs[h].root,
            decreases found@.len() - n,
        {
            let (h, dir) = found[n];
            assert(found@[n as int] == (h, dir));
            roots.roots.set(h, dir);
            assert forall|g: int|
                0 <= g < hs.len() && !(exists|i: int|
                    0 <= i < n + 1 && (#[trigger] found@[i]).0 == g) implies #[trigger] roots.roots@[g]
                == hs[g].root by {
                if g == h {
                    assert(found@[n as int].0 == g);
                }
                if exists|i: int| 0 <= i < n && (#[trigger] found@[i]).0 == g {
                    let i = choose|i: int| 0 <= i < n && (#[trigger] found@[i]).0 == g;
                    assert(0 <= i < n + 1 && found@[i].0 == g);
                }
            }
            n = n + 1;
        }
        Some(roots)
    }

    proof fn targets_ascend(self, forest: Forest, pid: u64, identity: Option<usize>, n: nat)
        requires
            self.refers(forest),
            n <= forest.hierarchies@.len(),
            n <= usize::MAX,
        ensures
            ({
                let found = targets(self.index(), self.bits(), forest@, pid, identity, true, n);
                forall|i: int, j: int|
                    0 <= i < j < found.len() ==> (#[trigger] found[i]).0 < (#[trigger] found[j]).0
            }),
        decreases n,
    {
        if n > 0 {
            self.targets_ascend(forest, pid, identity, (n - 1) as nat);
            self.visible_targets_exist(forest, pid, identity, (n - 1) as nat);
            let rest = targets(
                self.index(),
                self.bits(),
                forest@,
                pid,
                identity,
                true,
                (n - 1) as nat,
            );
            let found = targets(self.index(), self.bits(), forest@, pid, identity, true, n);
            assert forall|i: int, j: int| 0 <= i < j < found.len() implies (#[trigger] found[i]).0
                < (#[trigger] found[j]).0 by {
                assert(found[i] == rest[i]);
                if j < rest.len() {
                    assert(found[j] == rest[j]);
                }
            }
        }
    }
}

} // verus!
