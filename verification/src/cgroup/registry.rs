//! Which process is a member of which directory.
//!
//! Two indexes hold every membership: the registry's, by process and hierarchy,
//! and the directories' own, by process.  A membership is visible through both
//! at once, because both refer to one publication bit.

use vstd::prelude::*;
use crate::cgroup::agreement::{agree, law_an_attach_keeps_the_agreement,
    law_an_attached_process_is_in_one_place, only_in};
use crate::cgroup::collections::{membership_map, pid_map, Membership, MembershipMap, PidMap};
use crate::cgroup::forest::{below, chain, frozen_above, is_internal, limiting, pids_active, version,
    CgroupVersion, DirView, Forest, Hierarchy};
use crate::error::Error;

verus! {

/// Memberships, by process number and hierarchy.
pub type Index = Map<(u64, usize), Membership>;

/// Memberships that the system admits, and those that one directory admits.
pub const MAX_CGROUP_MEMBERSHIPS: usize = 65_536;

/// How a reader decides that a membership still belongs to the process whose
/// number it carries.
pub enum RegistryValidation {
    /// By the identities of the processes that own their numbers now, by process
    /// number.
    ProductionIdentity(PidMap),
    /// By the publication alone.
    SyntheticLocal,
}

/// The identities that the first `n` of these pairs name, by process number.
pub open spec fn owners_of(pairs: Seq<(u64, usize)>, n: nat) -> Map<u64, usize>
    decreases n,
{
    if n == 0 {
        Map::empty()
    } else {
        owners_of(pairs, (n - 1) as nat).insert(pairs[n - 1].0, pairs[n - 1].1)
    }
}

/// A table of the identities that own their process numbers now.
pub fn owner_table(pairs: &Vec<(u64, usize)>) -> (owners: PidMap)
    ensures
        pid_map(owners) == owners_of(pairs@, pairs@.len()),
{
    let mut owners = PidMap::new();
    assert(pid_map(owners) =~= Map::empty());
    let mut i: usize = 0;
    while i < pairs.len()
        invariant
            i <= pairs@.len(),
            pid_map(owners) == owners_of(pairs@, i as nat),
        decreases pairs@.len() - i,
    {
        owners.insert(pairs[i].0, pairs[i].1);
        i = i + 1;
    }
    owners
}

/// Every membership.
pub struct PidMembershipRegistry {
    /// A process has one membership in every hierarchy: a mount of one hierarchy
    /// must not evict the membership of another.
    pub memberships: MembershipMap,
    /// The publication bits.  Fork preparation installs both index entries with
    /// the bit clear; its commit sets this one bit, so it cannot fail halfway or
    /// expose only one index.
    pub publications: Vec<bool>,
    pub global_limit: usize,
    pub per_cgroup_limit: usize,
}

/// Whether a validation accepts a membership as that of `pid`'s owner.
pub open spec fn accepts(validation: RegistryValidation, pid: u64, m: Membership) -> bool {
    match validation {
        RegistryValidation::ProductionIdentity(owners) => pid_map(owners).contains_key(pid)
            && m.identity == pid_map(owners)[pid],
        RegistryValidation::SyntheticLocal => true,
    }
}

/// Whether a directory's entry for `pid` is that of a live, visible member.
pub open spec fn is_current(
    index: Index,
    bits: Seq<bool>,
    hierarchies: nat,
    validation: RegistryValidation,
    pid: u64,
    publication: usize,
) -> bool {
    bits[publication as int] && exists|h: usize|
        h < hierarchies && #[trigger] index.contains_key((pid, h)) && index[(pid, h)].publication
            == publication && accepts(validation, pid, index[(pid, h)])
}

/// The visible members of a directory.
pub open spec fn live_members(
    index: Index,
    bits: Seq<bool>,
    hierarchies: nat,
    validation: RegistryValidation,
    dir: DirView,
) -> Set<u64> {
    dir.pids.dom().filter(
        |pid: u64| is_current(index, bits, hierarchies, validation, pid, dir.pids[pid]),
    )
}

/// Visible members of the first `n` directories that are below `d`.
pub open spec fn live_among(
    index: Index,
    bits: Seq<bool>,
    hierarchies: nat,
    validation: RegistryValidation,
    ds: Seq<DirView>,
    d: int,
    n: nat,
) -> nat
    decreases n,
{
    if n == 0 {
        0
    } else {
        let x = n - 1;
        live_among(index, bits, hierarchies, validation, ds, d, (n - 1) as nat) + (if below(
            ds,
            x,
            d,
            257,
        ) {
            live_members(index, bits, hierarchies, validation, ds[x]).len()
        } else {
            0
        })
    }
}

/// Visible members of `d` and the directories below it.
pub open spec fn live_count(
    index: Index,
    bits: Seq<bool>,
    hierarchies: nat,
    validation: RegistryValidation,
    ds: Seq<DirView>,
    d: int,
) -> nat {
    live_among(index, bits, hierarchies, validation, ds, d, ds.len())
}

/// A peak after a count was observed.
pub open spec fn peak_after(peak: u64, count: int) -> u64 {
    if peak < count <= u64::MAX {
        count as u64
    } else {
        peak
    }
}

/// The directories after the counts, plus `extra`, were observed from `target` up
/// to its root.
pub open spec fn peaked(
    index: Index,
    bits: Seq<bool>,
    validation: RegistryValidation,
    hs: Seq<Hierarchy>,
    ds: Seq<DirView>,
    target: int,
    extra: nat,
) -> Seq<DirView> {
    Seq::new(
        ds.len(),
        |x: int|
            if chain(ds, target, ds.len()).contains(x) && pids_active(hs, ds, x) {
                DirView {
                    pids_peak: peak_after(
                        ds[x].pids_peak,
                        (live_count(index, bits, hs.len(), validation, ds, x) + extra) as int,
                    ),
                    ..ds[x]
                }
            } else {
                ds[x]
            },
    )
}

/// Whether a visible membership's directory is gone.
pub open spec fn is_stale(bits: Seq<bool>, ds: Seq<DirView>, m: Membership) -> bool {
    bits[m.publication as int] && !ds[m.target as int].live
}

/// The index without its stale memberships.
pub open spec fn purged(index: Index, bits: Seq<bool>, ds: Seq<DirView>) -> Index {
    Map::new(
        |k: (u64, usize)| index.contains_key(k) && !is_stale(bits, ds, index[k]),
        |k: (u64, usize)| index[k],
    )
}

/// Whether an attach is refused before it looks at any membership.
pub open spec fn attach_refused(
    hs: Seq<Hierarchy>,
    ds: Seq<DirView>,
    target: int,
    charge_fork: bool,
) -> bool {
    is_internal(hs, ds, target) || (charge_fork && version(hs, ds, target) == CgroupVersion::V2
        && frozen_above(ds, target, 256))
}

/// The directory that a process leaves by an attach to `target`.
pub open spec fn left_dir(ds: Seq<DirView>, old: Option<Membership>, target: usize) -> Option<int> {
    match old {
        Some(m) => if ds[m.target as int].live && m.target != target {
            Some(m.target as int)
        } else {
            None
        },
        None => None,
    }
}

/// What an attach of `pid` to `target` returns.
pub open spec fn attach_outcome(
    index: Index,
    bits: Seq<bool>,
    global_limit: usize,
    per_cgroup_limit: usize,
    hs: Seq<Hierarchy>,
    ds: Seq<DirView>,
    target: usize,
    pid: u64,
    charge_fork: bool,
) -> Result<bool, Error> {
    if attach_refused(hs, ds, target as int, charge_fork) {
        Err(Error::ResourceBusy)
    } else {
        attach_decision(
            purged(index, bits, ds),
            bits,
            global_limit,
            per_cgroup_limit,
            hs,
            ds,
            target,
            pid,
            charge_fork,
        )
    }
}

/// The outcome of an attach to a directory that takes processes, by the memberships
/// `kept`.
pub open spec fn attach_decision(
    kept: Index,
    bits: Seq<bool>,
    global_limit: usize,
    per_cgroup_limit: usize,
    hs: Seq<Hierarchy>,
    ds: Seq<DirView>,
    target: usize,
    pid: u64,
    charge_fork: bool,
) -> Result<bool, Error> {
    let dir = ds[target as int];
    let old = kept.get((pid, dir.hierarchy));
    let full = limiting(hs, ds, target as int, ds.len());
    if old is Some && !bits[old->0.publication as int] {
        Err(Error::ResourceBusy)
    } else if dir.pids.contains_key(pid) {
        if !bits[dir.pids[pid] as int] {
            Err(Error::ResourceBusy)
        } else if old is Some && old->0.target == target && old->0.publication == dir.pids[pid] {
            Ok(false)
        } else {
            Err(Error::BadState)
        }
    } else if charge_fork && full is Some {
        if ds[full->0].pids_events_limit == u64::MAX {
            Err(Error::BadState)
        } else {
            Err(Error::WouldBlock)
        }
    } else if dir.pids.dom().len() >= per_cgroup_limit {
        Err(Error::NoMemory)
    } else if old is None && kept.dom().len() >= global_limit {
        Err(Error::NoMemory)
    } else if left_dir(ds, old, target) is Some && ds[left_dir(ds, old, target)->0].pids.get(pid)
        != Some(old->0.publication) {
        Err(Error::Io)
    } else {
        Ok(true)
    }
}

/// The membership that an attach installs: a new publication, and the process of
/// the membership that it replaces.
pub open spec fn attached(old: Option<Membership>, target: usize, publication: usize) -> Membership {
    Membership {
        target,
        publication,
        identity: match old {
            Some(m) => m.identity,
            None => 0,
        },
        process: match old {
            Some(m) => m.process,
            None => 0,
        },
    }
}

/// The directories after a process moved to `target`.
pub open spec fn moved(
    ds: Seq<DirView>,
    old: Option<Membership>,
    target: usize,
    pid: u64,
    publication: usize,
) -> Seq<DirView> {
    let arrived = ds.update(
        target as int,
        DirView {
            pids: ds[target as int].pids.insert(pid, publication),
            ..ds[target as int]
        },
    );
    match left_dir(ds, old, target) {
        Some(l) => arrived.update(l, DirView { pids: ds[l].pids.remove(pid), ..ds[l] }),
        None => arrived,
    }
}

/// The index, the publication bits and the directories after an attach of `pid` to
/// `target`.
pub open spec fn attach_effect(
    index: Index,
    bits: Seq<bool>,
    global_limit: usize,
    per_cgroup_limit: usize,
    validation: RegistryValidation,
    hs: Seq<Hierarchy>,
    ds: Seq<DirView>,
    target: usize,
    pid: u64,
    charge_fork: bool,
) -> (Index, Seq<bool>, Seq<DirView>) {
    let kept = purged(index, bits, ds);
    let key = (pid, ds[target as int].hierarchy);
    let old = kept.get(key);
    let publication = bits.len() as usize;
    match attach_outcome(
        index,
        bits,
        global_limit,
        per_cgroup_limit,
        hs,
        ds,
        target,
        pid,
        charge_fork,
    ) {
        Ok(true) => {
            let indexed = kept.insert(key, attached(old, target, publication));
            let published = bits.push(true);
            (
                indexed,
                published,
                peaked(
                    indexed,
                    published,
                    validation,
                    hs,
                    moved(ds, old, target, pid, publication),
                    target as int,
                    0,
                ),
            )
        },
        Err(Error::WouldBlock) => (kept, bits, charged(hs, ds, target as int)),
        _ => (
            if attach_refused(hs, ds, target as int, charge_fork) {
                index
            } else {
                kept
            },
            bits,
            ds,
        ),
    }
}

/// The directories after the limit that a fork into `target` ran into counted it.
pub open spec fn charged(hs: Seq<Hierarchy>, ds: Seq<DirView>, target: int) -> Seq<DirView> {
    let full = limiting(hs, ds, target, ds.len())->0;
    ds.update(
        full,
        DirView { pids_events_limit: (ds[full].pids_events_limit + 1) as u64, ..ds[full] },
    )
}

impl PidMembershipRegistry {
    pub open spec fn index(self) -> Index {
        membership_map(self.memberships)
    }

    pub open spec fn bits(self) -> Seq<bool> {
        self.publications@
    }

    /// Every membership and every directory's entry refers to something.
    pub open spec fn refers(self, forest: Forest) -> bool {
        &&& forall|k: (u64, usize)|
            #[trigger] self.index().contains_key(k) ==> {
                &&& self.index()[k].target < forest@.len()
                &&& self.index()[k].publication < self.bits().len()
                &&& k.1 < forest.hierarchies@.len()
            }
        &&& forall|x: int, pid: u64|
            0 <= x < forest@.len() && #[trigger] forest@[x].pids.contains_key(pid)
                ==> forest@[x].pids[pid] < self.bits().len()
    }

    pub fn with_limits(global_limit: usize, per_cgroup_limit: usize) -> (registry: PidMembershipRegistry)
        ensures
            registry.index() == Map::<(u64, usize), Membership>::empty(),
            registry.bits() == Seq::<bool>::empty(),
            registry.global_limit == global_limit,
            registry.per_cgroup_limit == per_cgroup_limit,
    {
        let registry = PidMembershipRegistry {
            memberships: MembershipMap::new(),
            publications: Vec::new(),
            global_limit,
            per_cgroup_limit,
        };
        assert(registry.index() =~= Map::<(u64, usize), Membership>::empty());
        registry
    }

    /// The number of memberships, reservations counted.
    pub fn membership_count(&self) -> (count: usize)
        ensures
            count == self.index().dom().len(),
    {
        self.memberships.len()
    }

    /// Whether a directory's entry for `pid` is that of a live, visible member.
    pub fn current_publication_while_operating(
        &self,
        hierarchies: usize,
        validation: &RegistryValidation,
        pid: u64,
        publication: usize,
    ) -> (current: bool)
        requires
            publication < self.bits().len(),
        ensures
            current == is_current(
                self.index(),
                self.bits(),
                hierarchies as nat,
                *validation,
                pid,
                publication,
            ),
    {
        if !self.publications[publication] {
            return false;
        }
        let mut h: usize = 0;
        while h < hierarchies
            invariant
                h <= hierarchies,
                publication < self.bits().len(),
                self.bits()[publication as int],
                forall|g: usize|
                    g < h ==> !(#[trigger] self.index().contains_key((pid, g)) && self.index()[(
                        pid,
                        g,
                    )].publication == publication && accepts(
                        *validation,
                        pid,
                        self.index()[(pid, g)],
                    )),
            decreases hierarchies - h,
        {
            if let Some(m) = self.memberships.get(pid, h) {
                if m.publication == publication {
                    let accepted = match validation {
                        RegistryValidation::ProductionIdentity(owners) => match owners.get(pid) {
                            Some(owner) => owner == m.identity,
                            None => false,
                        },
                        RegistryValidation::SyntheticLocal => true,
                    };
                    if accepted {
                        assert(self.index().contains_key((pid, h)));
                        return true;
                    }
                }
            }
            h = h + 1;
        }
        false
    }

    /// The visible members of `x`, in an order that is not stated.
    pub fn live_pids(&self, forest: &Forest, validation: &RegistryValidation, x: usize) -> (pids: Vec<
        u64,
    >)
        requires
            self.refers(*forest),
            x < forest@.len(),
        ensures
            pids@.no_duplicates(),
            pids@.to_set() == live_members(
                self.index(),
                self.bits(),
                forest.hierarchies@.len(),
                *validation,
                forest@[x as int],
            ),
    {
        let ghost dir = forest@[x as int];
        assert(forest.dirs@[x as int]@ == dir);
        let hierarchies: usize = forest.hierarchies.len();
        let keys = forest.dirs[x].pids.keys();
        let mut pids: Vec<u64> = Vec::new();
        let mut index: usize = 0;
        while index < keys.len()
            invariant
                self.refers(*forest),
                x < forest@.len(),
                dir == forest@[x as int],
                dir == forest.dirs@[x as int]@,
                hierarchies == forest.hierarchies@.len(),
                index <= keys@.len(),
                keys@.no_duplicates(),
                keys@.to_set() == dir.pids.dom(),
                pids@.no_duplicates(),
                forall|i: int|
                    0 <= i < pids@.len() ==> exists|j: int|
                        0 <= j < index && #[trigger] keys@[j] == #[trigger] pids@[i],
                forall|i: int|
                    0 <= i < pids@.len() ==> is_current(
                        self.index(),
                        self.bits(),
                        hierarchies as nat,
                        *validation,
                        #[trigger] pids@[i],
                        dir.pids[pids@[i]],
                    ),
                forall|j: int|
                    0 <= j < index && is_current(
                        self.index(),
                        self.bits(),
                        hierarchies as nat,
                        *validation,
                        #[trigger] keys@[j],
                        dir.pids[keys@[j]],
                    ) ==> pids@.contains(keys@[j]),
            decreases keys@.len() - index,
        {
            let pid: u64 = keys[index];
            assert(keys@.to_set().contains(pid));
            let ghost before = pids@;
            if let Some(publication) = forest.pid_publication(x, pid) {
                if self.current_publication_while_operating(
                    hierarchies,
                    validation,
                    pid,
                    publication,
                ) {
                    pids.push(pid);
                    assert(pids@[pids@.len() - 1] == pid);
                    assert forall|j: int| 0 <= j < index + 1 && is_current(
                        self.index(),
                        self.bits(),
                        hierarchies as nat,
                        *validation,
                        #[trigger] keys@[j],
                        dir.pids[keys@[j]],
                    ) implies pids@.contains(keys@[j]) by {
                        if j < index {
                            let i = choose|i: int| 0 <= i < before.len() && before[i] == keys@[j];
                            assert(pids@[i] == keys@[j]);
                        }
                    }
                }
            }
            index = index + 1;
        }
        proof {
            let live = live_members(
                self.index(),
                self.bits(),
                hierarchies as nat,
                *validation,
                dir,
            );
            assert forall|pid: u64| live.contains(pid) implies pids@.to_set().contains(pid) by {
                assert(keys@.to_set().contains(pid));
                let j = choose|j: int| 0 <= j < keys@.len() && keys@[j] == pid;
                assert(pids@.contains(keys@[j]));
            }
            assert forall|pid: u64| pids@.to_set().contains(pid) implies live.contains(pid) by {
                let i = choose|i: int| 0 <= i < pids@.len() && pids@[i] == pid;
                let j = choose|j: int| 0 <= j < keys@.len() && #[trigger] keys@[j] == pids@[i];
                assert(keys@.to_set().contains(pid));
            }
            assert(pids@.to_set() =~= live);
        }
        pids
    }

    /// The number of visible members of `d` and the directories below it.
    pub fn recursive_live_pid_count(
        &self,
        forest: &Forest,
        validation: &RegistryValidation,
        d: usize,
    ) -> (count: u128)
        requires
            forest.indexed(),
            self.refers(*forest),
            d < forest@.len(),
        ensures
            count == live_count(
                self.index(),
                self.bits(),
                forest.hierarchies@.len(),
                *validation,
                forest@,
                d as int,
            ),
            count <= 0xffff_ffff_ffff_ffff * 0xffff_ffff_ffff_ffff,
    {
        let mut count: u128 = 0;
        let mut x: usize = 0;
        while x < forest.dirs.len()
            invariant
                forest.indexed(),
                self.refers(*forest),
                x <= forest@.len(),
                count == live_among(
                    self.index(),
                    self.bits(),
                    forest.hierarchies@.len(),
                    *validation,
                    forest@,
                    d as int,
                    x as nat,
                ),
                count <= x * 0xffff_ffff_ffff_ffff,
            decreases forest@.len() - x,
        {
            if forest.is_below(x, d) {
                let pids = self.live_pids(forest, validation, x);
                proof {
                    pids@.unique_seq_to_set();
                }
                count = count + pids.len() as u128;
            }
            x = x + 1;
        }
        count
    }

    /// The visible members of `d` and the directories below it.
    pub fn recursive_live_pids(
        &self,
        forest: &Forest,
        validation: &RegistryValidation,
        d: usize,
    ) -> (pids: Vec<u64>)
        requires
            forest.indexed(),
            self.refers(*forest),
            d < forest@.len(),
        ensures
            forall|pid: u64|
                #![trigger pids@.contains(pid)]
                pids@.contains(pid) <==> exists|x: int|
                    0 <= x < forest@.len() && #[trigger] below(forest@, x, d as int, 257)
                        && live_members(
                        self.index(),
                        self.bits(),
                        forest.hierarchies@.len(),
                        *validation,
                        forest@[x],
                    ).contains(pid),
            pids@.len() == live_count(
                self.index(),
                self.bits(),
                forest.hierarchies@.len(),
                *validation,
                forest@,
                d as int,
            ),
    {
        let mut pids: Vec<u64> = Vec::new();
        let mut x: usize = 0;
        while x < forest.dirs.len()
            invariant
                forest.indexed(),
                self.refers(*forest),
                x <= forest@.len(),
                forall|pid: u64|
                    #![trigger pids@.contains(pid)]
                    pids@.contains(pid) <==> exists|y: int|
                        0 <= y < x && #[trigger] below(forest@, y, d as int, 257) && live_members(
                            self.index(),
                            self.bits(),
                            forest.hierarchies@.len(),
                            *validation,
                            forest@[y],
                        ).contains(pid),
                pids@.len() == live_among(
                    self.index(),
                    self.bits(),
                    forest.hierarchies@.len(),
                    *validation,
                    forest@,
                    d as int,
                    x as nat,
                ),
            decreases forest@.len() - x,
        {
            let ghost before = pids@;
            if forest.is_below(x, d) {
                let mut more = self.live_pids(forest, validation, x);
                let ghost added = more@;
                pids.append(&mut more);
                proof {
                    added.unique_seq_to_set();
                    assert forall|pid: u64|
                        #![trigger pids@.contains(pid)]
                        pids@.contains(pid) <==> exists|y: int|
                            0 <= y < x + 1 && #[trigger] below(forest@, y, d as int, 257)
                                && live_members(
                                self.index(),
                                self.bits(),
                                forest.hierarchies@.len(),
                                *validation,
                                forest@[y],
                            ).contains(pid) by {
                        assert(pids@.contains(pid) <==> before.contains(pid) || added.contains(pid))
                            by {
                            if before.contains(pid) {
                                let i = choose|i: int| 0 <= i < before.len() && before[i] == pid;
                                assert(pids@[i] == pid);
                            }
                            if added.contains(pid) {
                                let i = choose|i: int| 0 <= i < added.len() && added[i] == pid;
                                assert(pids@[before.len() + i] == pid);
                            }
                        }
                        assert(added.contains(pid) <==> added.to_set().contains(pid));
                        assert(below(forest@, x as int, d as int, 257));
                    }
                }
            }
            x = x + 1;
        }
        pids
    }

    /// Record the counts from `target` up to its root as peaks.  A child that is
    /// about to be published is counted by `extra`.
    pub fn update_pids_peak_hierarchy(
        &self,
        forest: &mut Forest,
        validation: &RegistryValidation,
        target: usize,
        extra: bool,
    )
        requires
            old(forest).indexed(),
            self.refers(*old(forest)),
            target < old(forest)@.len(),
        ensures
            final(forest)@ == peaked(
                self.index(),
                self.bits(),
                *validation,
                old(forest).hierarchies@,
                old(forest)@,
                target as int,
                if extra {
                    1
                } else {
                    0
                },
            ),
            final(forest).hierarchies == old(forest).hierarchies,
    {
        let ghost ds = forest@;
        let ghost hs = forest.hierarchies@;
        let ghost more: nat = if extra {
            1
        } else {
            0
        };
        let ghost goal = peaked(self.index(), self.bits(), *validation, hs, ds, target as int, more);
        let walk = forest.cgroup_ancestor_chain(target);
        let ghost up = chain(ds, target as int, ds.len());
        let mut peaks: Vec<u64> = Vec::new();
        let mut index: usize = 0;
        while index < walk.len()
            invariant
                forest.indexed(),
                self.refers(*forest),
                forest@ == ds,
                forest.hierarchies@ == hs,
                more == (if extra {
                    1nat
                } else {
                    0nat
                }),
                index <= walk@.len(),
                peaks@.len() == index,
                up == chain(ds, target as int, ds.len()),
                walk@.map_values(|i: usize| i as int) == up,
                goal == peaked(
                    self.index(),
                    self.bits(),
                    *validation,
                    hs,
                    ds,
                    target as int,
                    more,
                ),
                forall|i: int| 0 <= i < walk@.len() ==> #[trigger] walk@[i] < ds.len(),
                forall|i: int|
                    0 <= i < index ==> #[trigger] peaks@[i] == goal[walk@[i] as int].pids_peak,
            decreases walk@.len() - index,
        {
            let x: usize = walk[index];
            assert(forest.dirs@[x as int]@ == ds[x as int]);
            assert(up[index as int] == x);
            assert(up.contains(x as int));
            let mut peak: u64 = forest.dirs[x].pids_peak;
            if forest.pids_controller_active(x) {
                let mut count: u128 = self.recursive_live_pid_count(forest, validation, x);
                if extra {
                    count = count + 1;
                }
                if count > peak as u128 && count <= u64::MAX as u128 {
                    peak = count as u64;
                }
            }
            peaks.push(peak);
            index = index + 1;
        }
        let mut done: usize = 0;
        while done < walk.len()
            invariant
                forest@.len() == ds.len(),
                forest.hierarchies@ == hs,
                forest.hierarchies == old(forest).hierarchies,
                done <= walk@.len(),
                peaks@.len() == walk@.len(),
                goal.len() == ds.len(),
                up == chain(ds, target as int, ds.len()),
                walk@.map_values(|i: usize| i as int) == up,
                goal == peaked(
                    self.index(),
                    self.bits(),
                    *validation,
                    hs,
                    ds,
                    target as int,
                    more,
                ),
                forall|i: int| 0 <= i < walk@.len() ==> #[trigger] walk@[i] < ds.len(),
                forall|i: int|
                    0 <= i < walk@.len() ==> #[trigger] peaks@[i] == goal[walk@[i] as int].pids_peak,
                forall|x: int|
                    #![trigger forest@[x]]
                    0 <= x < ds.len() ==> forest@[x] == ds[x] || forest@[x] == goal[x],
                forall|i: int|
                    0 <= i < done ==> forest@[#[trigger] walk@[i] as int] == goal[walk@[i] as int],
            decreases walk@.len() - done,
        {
            let x: usize = walk[done];
            let ghost before = forest@;
            forest.set_pids_peak(x, peaks[done]);
            assert(forest@[x as int] == goal[x as int]) by {
                assert(before[x as int] == ds[x as int] || before[x as int] == goal[x as int]);
            }
            done = done + 1;
        }
        assert forall|x: int| 0 <= x < ds.len() implies #[trigger] forest@[x] == goal[x] by {
            if up.contains(x) {
                let i = choose|i: int| 0 <= i < up.len() && up[i] == x;
                assert(walk@.map_values(|i: usize| i as int)[i] == x);
                assert(walk@[i] == x);
            }
        }
        assert(forest@ =~= goal);
    }

    /// Forget the visible memberships whose directory is gone.
    fn purge_stale(&mut self, forest: &Forest)
        requires
            old(self).refers(*forest),
        ensures
            final(self).index() == purged(old(self).index(), old(self).bits(), forest@),
            final(self).publications == old(self).publications,
            final(self).global_limit == old(self).global_limit,
            final(self).per_cgroup_limit == old(self).per_cgroup_limit,
    {
        let keys = self.memberships.keys();
        let ghost before = self.index();
        let ghost bits = self.bits();
        let ghost goal = purged(before, bits, forest@);
        let mut index: usize = 0;
        while index < keys.len()
            invariant
                old(self).refers(*forest),
                before == old(self).index(),
                bits == self.bits(),
                bits == old(self).bits(),
                self.publications == old(self).publications,
                self.global_limit == old(self).global_limit,
                self.per_cgroup_limit == old(self).per_cgroup_limit,
                goal == purged(before, bits, forest@),
                index <= keys@.len(),
                keys@.to_set() == before.dom(),
                forall|k: (u64, usize)|
                    #[trigger] self.index().contains_key(k) ==> before.contains_key(k)
                        && self.index()[k] == before[k],
                forall|k: (u64, usize)|
                    #[trigger] goal.contains_key(k) ==> self.index().contains_key(k),
                forall|j: int|
                    0 <= j < index && self.index().contains_key(#[trigger] keys@[j])
                        ==> goal.contains_key(keys@[j]),
            decreases keys@.len() - index,
        {
            let (pid, h) = keys[index];
            assert(keys@.to_set().contains((pid, h)));
            if let Some(m) = self.memberships.get(pid, h) {
                assert(self.index().contains_key((pid, h)));
                assert(old(self).index().contains_key((pid, h)));
                assert(forest.dirs@[m.target as int]@ == forest@[m.target as int]);
                if self.publications[m.publication] && !forest.dirs[m.target].live {
                    self.memberships.remove(pid, h);
                }
            }
            index = index + 1;
        }
        assert forall|k: (u64, usize)| self.index().contains_key(k) implies goal.contains_key(k) by {
            assert(keys@.to_set().contains(k));
            let j = choose|j: int| 0 <= j < keys@.len() && keys@[j] == k;
            assert(self.index().contains_key(keys@[j]));
        }
        assert(self.index() =~= goal);
    }

    /// Decide an attach to a directory that takes processes.
    fn decide_attach(
        &self,
        forest: &Forest,
        target: usize,
        pid: u64,
        charge_fork: bool,
        old_mapping: Option<Membership>,
    ) -> (result: Result<bool, Error>)
        requires
            forest.indexed(),
            self.refers(*forest),
            target < forest@.len(),
            old_mapping == self.index().get((pid, forest@[target as int].hierarchy)),
        ensures
            result == attach_decision(
                self.index(),
                self.bits(),
                self.global_limit,
                self.per_cgroup_limit,
                forest.hierarchies@,
                forest@,
                target,
                pid,
                charge_fork,
            ),
    {
        let ghost ds = forest@;
        assert(forest.dirs@[target as int]@ == ds[target as int]);
        if let Some(m) = old_mapping {
            assert(self.index().contains_key((pid, ds[target as int].hierarchy)));
            if !self.publications[m.publication] {
                return Err(Error::ResourceBusy);
            }
        }
        if let Some(existing) = forest.pid_publication(target, pid) {
            assert(ds[target as int].pids.contains_key(pid));
            if !self.publications[existing] {
                return Err(Error::ResourceBusy);
            }
            if let Some(m) = old_mapping {
                if m.target == target && m.publication == existing {
                    return Ok(false);
                }
            }
            return Err(Error::BadState);
        }
        if charge_fork {
            if let Some(full) = forest.limiting_dir_for_fork(target) {
                assert(forest.dirs@[full as int]@ == ds[full as int]);
                if forest.dirs[full].pids_events_limit == u64::MAX {
                    return Err(Error::BadState);
                }
                return Err(Error::WouldBlock);
            }
        }
        if forest.dirs[target].pids.len() >= self.per_cgroup_limit {
            return Err(Error::NoMemory);
        }
        if old_mapping.is_none() && self.memberships.len() >= self.global_limit {
            return Err(Error::NoMemory);
        }
        if let Some(m) = old_mapping {
            assert(forest.dirs@[m.target as int]@ == ds[m.target as int]);
            if forest.dirs[m.target].live && m.target != target {
                match forest.pid_publication(m.target, pid) {
                    Some(publication) => {
                        if publication != m.publication {
                            return Err(Error::Io);
                        }
                    },
                    None => {
                        return Err(Error::Io);
                    },
                }
            }
        }
        Ok(true)
    }

    /// Move `pid` to `target` in both indexes.
    fn commit_attach(
        &mut self,
        forest: &mut Forest,
        target: usize,
        pid: u64,
        old_mapping: Option<Membership>,
    )
        requires
            old(forest).indexed(),
            old(self).refers(*old(forest)),
            target < old(forest)@.len(),
            old_mapping == old(self).index().get((pid, old(forest)@[target as int].hierarchy)),
        ensures
            final(forest).hierarchies == old(forest).hierarchies,
            final(forest)@ == moved(
                old(forest)@,
                old_mapping,
                target,
                pid,
                old(self).bits().len() as usize,
            ),
            final(forest).indexed(),
            final(self).index() == old(self).index().insert(
                (pid, old(forest)@[target as int].hierarchy),
                attached(old_mapping, target, old(self).bits().len() as usize),
            ),
            final(self).bits() == old(self).bits().push(true),
            final(self).global_limit == old(self).global_limit,
            final(self).per_cgroup_limit == old(self).per_cgroup_limit,
            final(self).refers(*final(forest)),
    {
        let ghost ds = forest@;
        assert(forest.dirs@[target as int]@ == ds[target as int]);
        let hierarchy: usize = forest.dirs[target].hierarchy;
        let old_dir: Option<usize> = match old_mapping {
            Some(m) => {
                assert(self.index().contains_key((pid, hierarchy)));
                assert(forest.dirs@[m.target as int]@ == ds[m.target as int]);
                if forest.dirs[m.target].live && m.target != target {
                    Some(m.target)
                } else {
                    None
                }
            },
            None => None,
        };
        let publication: usize = self.publications.len();
        self.publications.push(true);
        let replacement = match old_mapping {
            Some(m) => Membership {
                target,
                publication,
                identity: m.identity,
                process: m.process,
            },
            None => Membership { target, publication, identity: 0, process: 0 },
        };
        forest.insert_pid(target, pid, publication);
        if let Some(left) = old_dir {
            forest.remove_pid(left, pid);
        }
        self.memberships.insert(pid, hierarchy, replacement);
        assert(forest@ =~= moved(ds, old_mapping, target, pid, publication));
        proof {
            same_indexes(*old(forest), *forest);
            assert(self.refers(*forest)) by {
                assert forall|x: int, p: u64|
                    0 <= x < forest@.len() && #[trigger] forest@[x].pids.contains_key(p) implies forest@[x].pids[p]
                    < self.bits().len() by {
                    if !(x == target && p == pid) {
                        assert(ds[x].pids.contains_key(p));
                    }
                }
            }
        }
    }

    /// Attach `pid` to `target`, out of the directory of the same hierarchy that
    /// it is in.
    ///
    /// Everything that can fail is decided before either index changes, so that
    /// readers observe only the old state or the fully committed new state.  The
    /// result says whether anything changed.
    pub fn try_attach_locked(
        &mut self,
        forest: &mut Forest,
        validation: &RegistryValidation,
        target: usize,
        pid: u64,
        charge_fork: bool,
    ) -> (result: Result<bool, Error>)
        requires
            old(forest).indexed(),
            old(self).refers(*old(forest)),
            target < old(forest)@.len(),
        ensures
            result == attach_outcome(
                old(self).index(),
                old(self).bits(),
                old(self).global_limit,
                old(self).per_cgroup_limit,
                old(forest).hierarchies@,
                old(forest)@,
                target,
                pid,
                charge_fork,
            ),
            final(self).global_limit == old(self).global_limit,
            final(self).per_cgroup_limit == old(self).per_cgroup_limit,
            final(forest).hierarchies == old(forest).hierarchies,
            (final(self).index(), final(self).bits(), final(forest)@) == attach_effect(
                old(self).index(),
                old(self).bits(),
                old(self).global_limit,
                old(self).per_cgroup_limit,
                *validation,
                old(forest).hierarchies@,
                old(forest)@,
                target,
                pid,
                charge_fork,
            ),
            agree(old(self).index(), old(forest)@) && old(forest)@[target as int].live ==> {
                &&& agree(final(self).index(), final(forest)@)
                &&& result is Ok ==> only_in(final(self).index(), final(forest)@, target, pid)
            },
            final(forest).indexed(),
            final(self).refers(*final(forest)),
    {
        let ghost ds = forest@;
        proof {
            if agree(self.index(), ds) && ds[target as int].live {
                law_an_attach_keeps_the_agreement(
                    *self,
                    *forest,
                    *validation,
                    target,
                    pid,
                    charge_fork,
                );
                if attach_outcome(
                    self.index(),
                    self.bits(),
                    self.global_limit,
                    self.per_cgroup_limit,
                    forest.hierarchies@,
                    ds,
                    target,
                    pid,
                    charge_fork,
                ) is Ok {
                    law_an_attached_process_is_in_one_place(
                        *self,
                        *forest,
                        *validation,
                        target,
                        pid,
                        charge_fork,
                    );
                }
            }
        }
        if forest.v2_has_enabled_child_controllers(target) {
            return Err(Error::ResourceBusy);
        }
        if charge_fork && forest.version_of(target) == CgroupVersion::V2
            && forest.is_effectively_frozen(target) {
            // A fork admission is published before its child has a task that can
            // enter the freezer wait.  An existing process may migrate, and is
            // reconciled to the freezer after the commit.
            return Err(Error::ResourceBusy);
        }
        assert(forest.dirs@[target as int]@ == ds[target as int]);
        let hierarchy: usize = forest.dirs[target].hierarchy;
        self.purge_stale(forest);
        let old_mapping = self.memberships.get(pid, hierarchy);
        let outcome = self.decide_attach(&*forest, target, pid, charge_fork, old_mapping);
        match outcome {
            Ok(true) => {
                self.commit_attach(forest, target, pid, old_mapping);
                self.update_pids_peak_hierarchy(forest, validation, target, false);
            },
            Err(Error::WouldBlock) => {
                if let Some(full) = forest.limiting_dir_for_fork(target) {
                    assert(forest.dirs@[full as int]@ == ds[full as int]);
                    let events: u64 = forest.dirs[full].pids_events_limit;
                    forest.set_pids_events_limit(full, events + 1);
                }
            },
            _ => {},
        }
        outcome
    }
}

/// A forest whose links and tables did not change is indexed as before.
pub proof fn same_indexes(before: Forest, after: Forest)
    requires
        before.indexed(),
        after.hierarchies == before.hierarchies,
        after@.len() == before@.len(),
        forall|x: int|
            #![trigger after@[x]]
            0 <= x < before@.len() ==> after@[x].hierarchy == before@[x].hierarchy
                && after@[x].parent == before@[x].parent && after@[x].children
                == before@[x].children,
    ensures
        after.indexed(),
{
    assert forall|x: int, name: Seq<u8>|
        #![trigger after@[x].children.contains_key(name)]
        0 <= x < after@.len() && after@[x].children.contains_key(name) implies after@[x].children[name]
        < after@.len() by {
        assert(before@[x].children.contains_key(name));
    }
}

} // verus!
