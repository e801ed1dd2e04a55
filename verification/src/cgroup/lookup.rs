//! Reading and releasing the memberships of one process.

use vstd::prelude::*;
use crate::cgroup::collections::Membership;
use crate::cgroup::forest::{version, CgroupVersion, DirView, Forest, Hierarchy};
use crate::cgroup::registry::{Index, PidMembershipRegistry};
use crate::error::Error;

verus! {

/// Whether a membership is that of the process with this identity.  Identity zero
/// is that of no process.
pub open spec fn matches(m: Membership, identity: usize) -> bool {
    identity != 0 && m.identity == identity
}

/// [`matches`], or any membership where no identity is asked for.
pub open spec fn admits(m: Membership, identity: Option<usize>) -> bool {
    identity is None || matches(m, identity->0)
}

/// The index without those of `pid`'s memberships that match, or do not match, an
/// identity.
pub open spec fn forgotten(index: Index, pid: u64, identity: usize, matching: bool) -> Index {
    Map::new(
        |k: (u64, usize)|
            index.contains_key(k) && !(k.0 == pid && matches(index[k], identity) == matching),
        |k: (u64, usize)| index[k],
    )
}

/// Whether `x` holds the entry of one of those memberships, in the hierarchies
/// below `n`.
pub open spec fn releases(
    index: Index,
    bits: Seq<bool>,
    ds: Seq<DirView>,
    pid: u64,
    identity: usize,
    matching: bool,
    n: nat,
    x: int,
) -> bool {
    exists|h: usize|
        h < n && #[trigger] index.contains_key((pid, h)) && matches(index[(pid, h)], identity)
            == matching && (!matching || bits[index[(pid, h)].publication as int]) && index[(
            pid,
            h,
        )].target == x && ds[x].live && ds[x].pids.get(pid) == Some(index[(pid, h)].publication)
}

/// The directories without the entries of those memberships.  Where the matching
/// ones go, a hidden membership keeps its directory's entry.
pub open spec fn released(
    index: Index,
    bits: Seq<bool>,
    ds: Seq<DirView>,
    pid: u64,
    identity: usize,
    matching: bool,
    n: nat,
) -> Seq<DirView> {
    Seq::new(
        ds.len(),
        |x: int|
            if releases(index, bits, ds, pid, identity, matching, n, x) {
                DirView { pids: ds[x].pids.remove(pid), ..ds[x] }
            } else {
                ds[x]
            },
    )
}

/// Where `pid`'s admitted memberships in the first `n` hierarchies lead, among the
/// directories that are still there: hierarchy and directory.  Hidden memberships
/// are left out where `visible_only` says so.
pub open spec fn targets(
    index: Index,
    bits: Seq<bool>,
    ds: Seq<DirView>,
    pid: u64,
    identity: Option<usize>,
    visible_only: bool,
    n: nat,
) -> Seq<(usize, usize)>
    decreases n,
{
    if n == 0 {
        Seq::empty()
    } else {
        let h = (n - 1) as usize;
        let rest = targets(index, bits, ds, pid, identity, visible_only, (n - 1) as nat);
        let m = index[(pid, h)];
        if index.contains_key((pid, h)) && admits(m, identity) && (!visible_only
            || bits[m.publication as int]) && ds[m.target as int].live {
            rest.push((h, m.target))
        } else {
            rest
        }
    }
}

/// Whether one of `pid`'s admitted memberships is hidden: a fork is on its way.
pub open spec fn pending(
    index: Index,
    bits: Seq<bool>,
    pid: u64,
    identity: Option<usize>,
    n: nat,
) -> bool {
    exists|h: usize|
        h < n && #[trigger] index.contains_key((pid, h)) && admits(index[(pid, h)], identity)
            && !bits[index[(pid, h)].publication as int]
}

/// The index without those of `pid`'s memberships that do not match an identity or
/// whose directory is gone.
pub open spec fn tidied(index: Index, ds: Seq<DirView>, pid: u64, identity: usize) -> Index {
    Map::new(
        |k: (u64, usize)|
            index.contains_key(k) && !(k.0 == pid && !(matches(index[k], identity)
                && ds[index[k].target as int].live)),
        |k: (u64, usize)| index[k],
    )
}

/// The index without those of `pid`'s memberships whose directory is gone.
pub open spec fn without_gone(index: Index, ds: Seq<DirView>, pid: u64) -> Index {
    Map::new(
        |k: (u64, usize)|
            index.contains_key(k) && !(k.0 == pid && !ds[index[k].target as int].live),
        |k: (u64, usize)| index[k],
    )
}

/// The first membership of `pid` from hierarchy `h` on that is of version two and
/// admitted.
pub open spec fn v2_membership(
    index: Index,
    hs: Seq<Hierarchy>,
    pid: u64,
    identity: Option<usize>,
    h: nat,
) -> Option<Membership>
    decreases hs.len() - h,
{
    if h >= hs.len() {
        None
    } else if index.contains_key((pid, h as usize)) && hs[h as int].version == CgroupVersion::V2
        && admits(index[(pid, h as usize)], identity) {
        Some(index[(pid, h as usize)])
    } else {
        v2_membership(index, hs, pid, identity, h + 1)
    }
}

/// The directory of a membership that can be seen and is still there.
pub open spec fn seen(bits: Seq<bool>, ds: Seq<DirView>, m: Option<Membership>) -> Option<usize> {
    match m {
        Some(m) => if bits[m.publication as int] && ds[m.target as int].live {
            Some(m.target)
        } else {
            None
        },
        None => None,
    }
}

/// Whether a membership's process is gone, or was never known.
pub open spec fn unbound(m: Membership, gone: Seq<usize>) -> bool {
    m.identity == 0 || gone.contains(m.identity)
}

/// The index after `pid`'s memberships were bound to a process.
pub open spec fn bound(
    index: Index,
    pid: u64,
    identity: usize,
    process: usize,
    gone: Seq<usize>,
) -> Index {
    index.map_entries(
        |k: (u64, usize), m: Membership|
            if k.0 == pid && (unbound(m, gone) || matches(m, identity)) {
                Membership { identity, process, ..m }
            } else {
                m
            },
    )
}

/// The process of the first membership of `pid`, from hierarchy `h` on, that is
/// visible and matches.
pub open spec fn process_of(
    index: Index,
    bits: Seq<bool>,
    pid: u64,
    identity: usize,
    hierarchies: nat,
    h: nat,
) -> Option<usize>
    decreases hierarchies - h,
{
    if h >= hierarchies {
        None
    } else {
        let m = index[(pid, h as usize)];
        if index.contains_key((pid, h as usize)) && bits[m.publication as int] && matches(
            m,
            identity,
        ) {
            if m.process == 0 {
                None
            } else {
                Some(m.process)
            }
        } else {
            process_of(index, bits, pid, identity, hierarchies, h + 1)
        }
    }
}

fn membership_matches_process(m: &Membership, identity: usize) -> (found: bool)
    ensures
        found == matches(*m, identity),
{
    identity != 0 && m.identity == identity
}

fn is_admitted(m: &Membership, identity: Option<usize>) -> (admitted: bool)
    ensures
        admitted == admits(*m, identity),
{
    match identity {
        Some(identity) => membership_matches_process(m, identity),
        None => true,
    }
}

fn is_listed(list: &Vec<usize>, item: usize) -> (found: bool)
    ensures
        found == list@.contains(item),
{
    let mut index: usize = 0;
    while index < list.len()
        invariant
            index <= list@.len(),
            forall|i: int| 0 <= i < index ==> list@[i] != item,
        decreases list@.len() - index,
    {
        if list[index] == item {
            assert(list@[index as int] == item);
            return true;
        }
        index = index + 1;
    }
    false
}

impl PidMembershipRegistry {
    /// Forget those of `pid`'s memberships that match, or do not match, an
    /// identity, in both indexes.
    fn forget(
        &mut self,
        forest: &mut Forest,
        pid: u64,
        identity: usize,
        matching: bool,
    )
        requires
            old(self).refers(*old(forest)),
        ensures
            final(self).index() == forgotten(old(self).index(), pid, identity, matching),
            final(forest)@ == released(
                old(self).index(),
                old(self).bits(),
                old(forest)@,
                pid,
                identity,
                matching,
                old(forest).hierarchies@.len(),
            ),
            final(self).publications == old(self).publications,
            final(self).global_limit == old(self).global_limit,
            final(self).per_cgroup_limit == old(self).per_cgroup_limit,
            final(forest).hierarchies == old(forest).hierarchies,
    {
        let ghost index = self.index();
        let ghost bits = self.bits();
        let ghost ds = forest@;
        let hierarchies: usize = forest.hierarchies.len();
        let mut h: usize = 0;
        assert(forest@ =~= released(index, bits, ds, pid, identity, matching, 0));
        while h < hierarchies
            invariant
                old(self).refers(*old(forest)),
                index == old(self).index(),
                bits == old(self).bits(),
                ds == old(forest)@,
                h <= hierarchies,
                hierarchies == old(forest).hierarchies@.len(),
                forest.hierarchies == old(forest).hierarchies,
                self.publications == old(self).publications,
                self.global_limit == old(self).global_limit,
                self.per_cgroup_limit == old(self).per_cgroup_limit,
                forest@ == released(index, bits, ds, pid, identity, matching, h as nat),
                forall|k: (u64, usize)|
                    #[trigger] self.index().contains_key(k) <==> index.contains_key(k) && !(k.0
                        == pid && k.1 < h && matches(index[k], identity) == matching),
                forall|k: (u64, usize)|
                    #[trigger] self.index().contains_key(k) ==> self.index()[k] == index[k],
            decreases hierarchies - h,
        {
            let ghost before = forest@;
            let ghost ended = released(
                index,
                bits,
                ds,
                pid,
                identity,
                matching,
                (h + 1) as nat,
            );
            assert(self.index().contains_key((pid, h)) <==> index.contains_key((pid, h)));
            if let Some(m) = self.memberships.get(pid, h) {
                assert(index.contains_key((pid, h)) && index[(pid, h)] == m);
                if membership_matches_process(&m, identity) == matching {
                    self.memberships.remove(pid, h);
                    assert(old(self).index().contains_key((pid, h)));
                    assert(m.target < forest@.len());
                    assert(forest.dirs@[m.target as int]@ == before[m.target as int]);
                    if forest.dirs[m.target].live && (!matching
                        || self.publications[m.publication]) {
                        if let Some(publication) = forest.pid_publication(m.target, pid) {
                            if publication == m.publication {
                                forest.remove_pid(m.target, pid);
                            }
                        }
                    }
                }
            }
            assert forall|x: int| 0 <= x < ds.len() implies #[trigger] forest@[x] == ended[x] by {
                let earlier = releases(index, bits, ds, pid, identity, matching, h as nat, x);
                let now = releases(index, bits, ds, pid, identity, matching, (h + 1) as nat, x);
                if earlier {
                    assert(now);
                    if ds[x].pids.remove(pid).contains_key(pid) {
                        assert(false);
                    }
                } else if now {
                    let g = choose|g: usize|
                        g < h + 1 && #[trigger] index.contains_key((pid, g)) && matches(
                            index[(pid, g)],
                            identity,
                        ) == matching && (!matching || bits[index[(
                            pid,
                            g,
                        )].publication as int]) && index[(pid, g)].target == x && ds[x].live
                            && ds[x].pids.get(pid) == Some(index[(pid, g)].publication);
                    assert(g == h);
                }
            }
            assert(forest@ =~= ended);
            h = h + 1;
        }
        assert(self.index() =~= forgotten(index, pid, identity, matching));
    }

    /// The process table may have released a process number before a delayed
    /// cleanup runs.  Only the memberships whose process is not this live one go:
    /// a reused number's new entries are left untouched by the old lifecycle edge.
    pub fn purge_reused_pid(&mut self, forest: &mut Forest, pid: u64, identity: usize)
        requires
            old(self).refers(*old(forest)),
        ensures
            final(self).index() == forgotten(old(self).index(), pid, identity, false),
            final(forest)@ == released(
                old(self).index(),
                old(self).bits(),
                old(forest)@,
                pid,
                identity,
                false,
                old(forest).hierarchies@.len(),
            ),
            final(self).publications == old(self).publications,
            final(self).global_limit == old(self).global_limit,
            final(self).per_cgroup_limit == old(self).per_cgroup_limit,
            final(forest).hierarchies == old(forest).hierarchies,
    {
        self.forget(forest, pid, identity, false);
    }

    /// Remove a process that ended from every hierarchy.
    pub fn detach(&mut self, forest: &mut Forest, pid: u64, identity: usize)
        requires
            old(self).refers(*old(forest)),
        ensures
            final(self).index() == forgotten(old(self).index(), pid, identity, true),
            final(forest)@ == released(
                old(self).index(),
                old(self).bits(),
                old(forest)@,
                pid,
                identity,
                true,
                old(forest).hierarchies@.len(),
            ),
            final(self).publications == old(self).publications,
            final(self).global_limit == old(self).global_limit,
            final(self).per_cgroup_limit == old(self).per_cgroup_limit,
            final(forest).hierarchies == old(forest).hierarchies,
    {
        self.forget(forest, pid, identity, true);
    }

    /// Whether one of `pid`'s admitted memberships is hidden.
    fn has_pending(&self, hierarchies: usize, pid: u64, identity: Option<usize>) -> (found: bool)
        requires
            forall|k: (u64, usize)|
                #[trigger] self.index().contains_key(k) ==> self.index()[k].publication
                    < self.bits().len(),
        ensures
            found == pending(self.index(), self.bits(), pid, identity, hierarchies as nat),
    {
        let mut h: usize = 0;
        while h < hierarchies
            invariant
                forall|k: (u64, usize)|
                    #[trigger] self.index().contains_key(k) ==> self.index()[k].publication
                        < self.bits().len(),
                h <= hierarchies,
                !pending(self.index(), self.bits(), pid, identity, h as nat),
            decreases hierarchies - h,
        {
            if let Some(m) = self.memberships.get(pid, h) {
                assert(self.index().contains_key((pid, h)));
                if is_admitted(&m, identity) && !self.publications[m.publication] {
                    return true;
                }
            }
            h = h + 1;
        }
        false
    }

    /// Where `pid`'s admitted memberships lead.
    fn collect_targets(
        &self,
        forest: &Forest,
        pid: u64,
        identity: Option<usize>,
        visible_only: bool,
    ) -> (found: Vec<(usize, usize)>)
        requires
            self.refers(*forest),
        ensures
            found@ == targets(
                self.index(),
                self.bits(),
                forest@,
                pid,
                identity,
                visible_only,
                forest.hierarchies@.len(),
            ),
    {
        let mut found: Vec<(usize, usize)> = Vec::new();
        let mut h: usize = 0;
        while h < forest.hierarchies.len()
            invariant
                self.refers(*forest),
                h <= forest.hierarchies@.len(),
                found@ == targets(
                    self.index(),
                    self.bits(),
                    forest@,
                    pid,
                    identity,
                    visible_only,
                    h as nat,
                ),
            decreases forest.hierarchies@.len() - h,
        {
            if let Some(m) = self.memberships.get(pid, h) {
                assert(self.index().contains_key((pid, h)));
                assert(forest.dirs@[m.target as int]@ == forest@[m.target as int]);
                if is_admitted(&m, identity) && (!visible_only || self.publications[m.publication])
                    && forest.dirs[m.target].live {
                    found.push((h, m.target));
                }
            }
            h = h + 1;
        }
        found
    }

    /// The directories that a child of `pid` inherits.  A stale target in one
    /// hierarchy does not erase the membership inherited from every other one.
    pub fn visible_targets_locked(
        &mut self,
        forest: &Forest,
        pid: u64,
        identity: usize,
    ) -> (result: Result<Vec<(usize, usize)>, Error>)
        requires
            old(self).refers(*forest),
        ensures
            ({
                let hierarchies = forest.hierarchies@.len();
                match result {
                    Err(error) => {
                        &&& error == Error::ResourceBusy
                        &&& pending(
                            old(self).index(),
                            old(self).bits(),
                            pid,
                            Some(identity),
                            hierarchies,
                        )
                        &&& final(self).index() == old(self).index()
                    },
                    Ok(found) => {
                        &&& !pending(
                            old(self).index(),
                            old(self).bits(),
                            pid,
                            Some(identity),
                            hierarchies,
                        )
                        &&& found@ == targets(
                            old(self).index(),
                            old(self).bits(),
                            forest@,
                            pid,
                            Some(identity),
                            false,
                            hierarchies,
                        )
                        &&& final(self).index() == tidied(old(self).index(), forest@, pid, identity)
                    },
                }
            }),
            final(self).publications == old(self).publications,
            final(self).global_limit == old(self).global_limit,
            final(self).per_cgroup_limit == old(self).per_cgroup_limit,
    {
        let hierarchies: usize = forest.hierarchies.len();
        if self.has_pending(hierarchies, pid, Some(identity)) {
            return Err(Error::ResourceBusy);
        }
        let found = self.collect_targets(forest, pid, Some(identity), false);
        self.retain_live(forest, pid, Some(identity));
        assert(self.index() =~= tidied(old(self).index(), forest@, pid, identity));
        Ok(found)
    }

    /// [`Self::visible_targets_locked`] for memberships that no process is bound
    /// to.
    pub fn visible_targets_without_identity_locked(
        &self,
        forest: &Forest,
        pid: u64,
    ) -> (result: Result<Vec<(usize, usize)>, Error>)
        requires
            self.refers(*forest),
        ensures
            ({
                let hierarchies = forest.hierarchies@.len();
                match result {
                    Err(error) => error == Error::ResourceBusy && pending(
                        self.index(),
                        self.bits(),
                        pid,
                        None,
                        hierarchies,
                    ),
                    Ok(found) => !pending(self.index(), self.bits(), pid, None, hierarchies)
                        && found@ == targets(
                        self.index(),
                        self.bits(),
                        forest@,
                        pid,
                        None,
                        false,
                        hierarchies,
                    ),
                }
            }),
    {
        if self.has_pending(forest.hierarchies.len(), pid, None) {
            return Err(Error::ResourceBusy);
        }
        Ok(self.collect_targets(forest, pid, None, false))
    }

    /// Drop those of `pid`'s memberships that are not admitted or whose directory is
    /// gone.
    fn retain_live(&mut self, forest: &Forest, pid: u64, identity: Option<usize>)
        requires
            old(self).refers(*forest),
        ensures
            forall|k: (u64, usize)|
                #[trigger] final(self).index().contains_key(k) <==> old(self).index().contains_key(
                    k,
                ) && !(k.0 == pid && !(admits(old(self).index()[k], identity)
                    && forest@[old(self).index()[k].target as int].live)),
            forall|k: (u64, usize)|
                #[trigger] final(self).index().contains_key(k) ==> final(self).index()[k] == old(
                    self,
                ).index()[k],
            final(self).publications == old(self).publications,
            final(self).global_limit == old(self).global_limit,
            final(self).per_cgroup_limit == old(self).per_cgroup_limit,
    {
        let ghost index = self.index();
        let mut h: usize = 0;
        while h < forest.hierarchies.len()
            invariant
                old(self).refers(*forest),
                index == old(self).index(),
                h <= forest.hierarchies@.len(),
                self.publications == old(self).publications,
                self.global_limit == old(self).global_limit,
                self.per_cgroup_limit == old(self).per_cgroup_limit,
                forall|k: (u64, usize)|
                    #[trigger] self.index().contains_key(k) <==> index.contains_key(k) && !(k.0
                        == pid && k.1 < h && !(admits(index[k], identity)
                        && forest@[index[k].target as int].live)),
                forall|k: (u64, usize)|
                    #[trigger] self.index().contains_key(k) ==> self.index()[k] == index[k],
            decreases forest.hierarchies@.len() - h,
        {
            assert(self.index().contains_key((pid, h)) <==> index.contains_key((pid, h)));
            if let Some(m) = self.memberships.get(pid, h) {
                assert(index.contains_key((pid, h)) && index[(pid, h)] == m);
                assert(forest.dirs@[m.target as int]@ == forest@[m.target as int]);
                if !is_admitted(&m, identity) || !forest.dirs[m.target].live {
                    self.memberships.remove(pid, h);
                }
            }
            h = h + 1;
        }
    }

    /// The first version-two membership of `pid` that is admitted.
    fn find_v2(&self, forest: &Forest, pid: u64, identity: Option<usize>) -> (found: Option<
        Membership,
    >)
        ensures
            found == v2_membership(self.index(), forest.hierarchies@, pid, identity, 0),
            found is Some ==> exists|h: usize|
                #[trigger] self.index().contains_key((pid, h)) && self.index()[(pid, h)]
                    == found->0,
    {
        let mut h: usize = 0;
        while h < forest.hierarchies.len()
            invariant
                h <= forest.hierarchies@.len(),
                v2_membership(self.index(), forest.hierarchies@, pid, identity, 0)
                    == v2_membership(
                    self.index(),
                    forest.hierarchies@,
                    pid,
                    identity,
                    h as nat,
                ),
            decreases forest.hierarchies@.len() - h,
        {
            if let Some(m) = self.memberships.get(pid, h) {
                if forest.hierarchies[h].version == CgroupVersion::V2 && is_admitted(&m, identity) {
                    assert(self.index().contains_key((pid, h)));
                    return Some(m);
                }
            }
            h = h + 1;
        }
        None
    }

    /// The version-two directory of a process.
    pub fn get_v2(&mut self, forest: &mut Forest, pid: u64, identity: usize) -> (dir: Option<usize>)
        requires
            old(self).refers(*old(forest)),
        ensures
            ({
                let hs = old(forest).hierarchies@;
                let index = forgotten(old(self).index(), pid, identity, false);
                let ds = released(
                    old(self).index(),
                    old(self).bits(),
                    old(forest)@,
                    pid,
                    identity,
                    false,
                    hs.len(),
                );
                let found = v2_membership(index, hs, pid, None, 0);
                &&& final(forest)@ == ds
                &&& dir == seen(old(self).bits(), ds, found)
                &&& final(self).index() == (if found is Some
                    && old(self).bits()[found->0.publication as int] && dir is None {
                    without_gone(index, ds, pid)
                } else {
                    index
                })
            }),
            final(self).publications == old(self).publications,
            final(self).global_limit == old(self).global_limit,
            final(self).per_cgroup_limit == old(self).per_cgroup_limit,
            final(forest).hierarchies == old(forest).hierarchies,
    {
        self.purge_reused_pid(forest, pid, identity);
        let ghost index = self.index();
        assert(self.refers(*forest)) by {
            assert forall|x: int, p: u64|
                0 <= x < forest@.len() && #[trigger] forest@[x].pids.contains_key(p) implies forest@[x].pids[p]
                < self.bits().len() by {
                assert(old(forest)@[x].pids.contains_key(p));
            }
            assert forall|k: (u64, usize)| #[trigger] self.index().contains_key(k) implies {
                &&& self.index()[k].target < forest@.len()
                &&& self.index()[k].publication < self.bits().len()
                &&& k.1 < forest.hierarchies@.len()
            } by {
                assert(old(self).index().contains_key(k));
            }
        }
        match self.find_v2(forest, pid, None) {
            Some(m) => {
                assert(m.target < forest@.len() && m.publication < self.bits().len());
                if !self.publications[m.publication] {
                    return None;
                }
                assert(forest.dirs@[m.target as int]@ == forest@[m.target as int]);
                if !forest.dirs[m.target].live {
                    self.retain_live(forest, pid, None);
                    assert(self.index() =~= without_gone(index, forest@, pid));
                    return None;
                }
                Some(m.target)
            },
            None => None,
        }
    }

    /// [`Self::get_v2`], without touching stale entries while a freezer transition
    /// uses a membership snapshot as its publication boundary.
    pub fn get_v2_while_operating(&self, forest: &Forest, pid: u64, identity: usize) -> (dir: Option<
        usize,
    >)
        requires
            self.refers(*forest),
        ensures
            dir == seen(
                self.bits(),
                forest@,
                v2_membership(self.index(), forest.hierarchies@, pid, Some(identity), 0),
            ),
    {
        match self.find_v2(forest, pid, Some(identity)) {
            Some(m) => {
                assert(m.target < forest@.len() && m.publication < self.bits().len());
                assert(forest.dirs@[m.target as int]@ == forest@[m.target as int]);
                if self.publications[m.publication] && forest.dirs[m.target].live {
                    Some(m.target)
                } else {
                    None
                }
            },
            None => None,
        }
    }

    /// Bind `pid`'s memberships to a process, except those of another process that
    /// still exists.  `gone` lists the identities of processes that do not.
    pub fn bind_process(
        &mut self,
        hierarchies: usize,
        pid: u64,
        identity: usize,
        process: usize,
        gone: &Vec<usize>,
    )
        requires
            forall|k: (u64, usize)|
                #[trigger] old(self).index().contains_key(k) ==> k.1 < hierarchies,
        ensures
            final(self).index() == bound(old(self).index(), pid, identity, process, gone@),
            final(self).publications == old(self).publications,
            final(self).global_limit == old(self).global_limit,
            final(self).per_cgroup_limit == old(self).per_cgroup_limit,
    {
        let ghost index = self.index();
        let ghost ended = bound(index, pid, identity, process, gone@);
        let mut h: usize = 0;
        while h < hierarchies
            invariant
                forall|k: (u64, usize)| #[trigger] index.contains_key(k) ==> k.1 < hierarchies,
                index == old(self).index(),
                ended == bound(index, pid, identity, process, gone@),
                h <= hierarchies,
                self.publications == old(self).publications,
                self.global_limit == old(self).global_limit,
                self.per_cgroup_limit == old(self).per_cgroup_limit,
                self.index().dom() == index.dom(),
                forall|k: (u64, usize)|
                    #[trigger] self.index().contains_key(k) ==> self.index()[k] == (if k.0 == pid
                        && k.1 < h {
                        ended[k]
                    } else {
                        index[k]
                    }),
            decreases hierarchies - h,
        {
            if let Some(m) = self.memberships.get(pid, h) {
                assert(self.index().contains_key((pid, h)));
                assert(index.dom().contains((pid, h)));
                if m.identity == 0 || is_listed(gone, m.identity) || membership_matches_process(
                    &m,
                    identity,
                ) {
                    self.memberships.insert(
                        pid,
                        h,
                        Membership {
                            target: m.target,
                            publication: m.publication,
                            identity,
                            process,
                        },
                    );
                    assert(self.index().dom() =~= index.dom());
                }
            }
            h = h + 1;
        }
        assert(self.index() =~= ended) by {
            assert forall|k: (u64, usize)| #[trigger] self.index().contains_key(k) implies self.index()[k]
                == ended[k] by {
                assert(index.dom().contains(k));
                assert(index.contains_key(k));
            }
        }
    }

    /// The process of `pid`'s owner, where a visible membership knows it.
    pub fn process_while_operating(&self, hierarchies: usize, pid: u64, identity: usize) -> (process:
        Option<usize>)
        requires
            forall|k: (u64, usize)|
                #[trigger] self.index().contains_key(k) ==> self.index()[k].publication
                    < self.bits().len(),
        ensures
            process == process_of(
                self.index(),
                self.bits(),
                pid,
                identity,
                hierarchies as nat,
                0,
            ),
    {
        let mut h: usize = 0;
        while h < hierarchies
            invariant
                forall|k: (u64, usize)|
                    #[trigger] self.index().contains_key(k) ==> self.index()[k].publication
                        < self.bits().len(),
                h <= hierarchies,
                process_of(self.index(), self.bits(), pid, identity, hierarchies as nat, 0)
                    == process_of(
                    self.index(),
                    self.bits(),
                    pid,
                    identity,
                    hierarchies as nat,
                    h as nat,
                ),
            decreases hierarchies - h,
        {
            if let Some(m) = self.memberships.get(pid, h) {
                assert(self.index().contains_key((pid, h)));
                if self.publications[m.publication] && membership_matches_process(&m, identity) {
                    if m.process == 0 {
                        return None;
                    }
                    return Some(m.process);
                }
            }
            h = h + 1;
        }
        None
    }

    /// The hierarchies and directories in which a process can be seen.
    ///
    /// The process may be a historical one: this only filters, so that it cannot
    /// purge the memberships of the process number's current owner.
    pub fn memberships_for_process(&self, forest: &Forest, pid: u64, identity: usize) -> (found: Vec<
        (usize, usize),
    >)
        requires
            self.refers(*forest),
        ensures
            found@ == targets(
                self.index(),
                self.bits(),
                forest@,
                pid,
                Some(identity),
                true,
                forest.hierarchies@.len(),
            ),
    {
        self.collect_targets(forest, pid, Some(identity), true)
    }
}

} // verus!
