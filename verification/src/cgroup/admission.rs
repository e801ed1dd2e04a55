//! Admitting a fork: every hierarchy reserves its place for the child, and one
//! publication makes them all visible at once.

use vstd::prelude::*;
use crate::cgroup::collections::Membership;
use crate::cgroup::forest::{frozen_above, limiting, version, CgroupVersion, DirView, Forest,
    Hierarchy};
use crate::cgroup::lookup::{bound, pending, targets};
use crate::cgroup::registry::{attach_refused, charged, peaked, same_indexes, Index,
    PidMembershipRegistry, RegistryValidation};
use crate::error::Error;

verus! {

/// Places that a fork holds: committed when the child is published, else rolled
/// back.
pub struct CgroupForkAdmission {
    pub child_pid: u64,
    /// Hierarchy and directory of every place.
    pub reservations: Vec<(usize, usize)>,
    pub publication: Option<usize>,
    pub identity: usize,
    pub committed: bool,
}

/// Why a fork into `places`, from the one with number `i` on, is refused, and whose
/// limit it ran into.
pub open spec fn fork_refusal(
    hs: Seq<Hierarchy>,
    ds: Seq<DirView>,
    places: Seq<(usize, usize)>,
    i: nat,
) -> Option<(Error, int)>
    decreases places.len() - i,
{
    if i >= places.len() {
        None
    } else {
        let target = places[i as int].1 as int;
        let full = limiting(hs, ds, target, ds.len());
        if attach_refused(hs, ds, target, true) {
            Some((Error::ResourceBusy, target))
        } else if full is Some {
            if ds[full->0].pids_events_limit == u64::MAX {
                Some((Error::BadState, target))
            } else {
                Some((Error::WouldBlock, target))
            }
        } else {
            fork_refusal(hs, ds, places, i + 1)
        }
    }
}

/// Why the directories of `places`, from the one with number `i` on, cannot take
/// the child.
pub open spec fn fork_crowded(
    ds: Seq<DirView>,
    places: Seq<(usize, usize)>,
    child: u64,
    per_cgroup_limit: usize,
    i: nat,
) -> Option<Error>
    decreases places.len() - i,
{
    if i >= places.len() {
        None
    } else {
        let pids = ds[places[i as int].1 as int].pids;
        if pids.contains_key(child) {
            Some(Error::AlreadyExists)
        } else if pids.dom().len() >= per_cgroup_limit {
            Some(Error::NoMemory)
        } else {
            fork_crowded(ds, places, child, per_cgroup_limit, i + 1)
        }
    }
}

/// Whether `pid` has a membership, visible or hidden.
pub open spec fn is_known(index: Index, pid: u64) -> bool {
    exists|h: usize| #[trigger] index.contains_key((pid, h))
}

/// Why a fork into `places` fails.
pub open spec fn fork_outcome(
    index: Index,
    global_limit: usize,
    per_cgroup_limit: usize,
    hs: Seq<Hierarchy>,
    ds: Seq<DirView>,
    places: Seq<(usize, usize)>,
    child: u64,
) -> Option<Error> {
    let refusal = fork_refusal(hs, ds, places, 0);
    if places.len() == 0 {
        None
    } else if refusal is Some {
        Some((refusal->0).0)
    } else if is_known(index, child) {
        Some(Error::AlreadyExists)
    } else if index.dom().len() + places.len() > global_limit {
        Some(Error::NoMemory)
    } else {
        fork_crowded(ds, places, child, per_cgroup_limit, 0)
    }
}

/// The index with the first `n` places reserved.
pub open spec fn reserved(
    index: Index,
    places: Seq<(usize, usize)>,
    child: u64,
    publication: usize,
    identity: usize,
    n: nat,
) -> Index
    decreases n,
{
    if n == 0 {
        index
    } else {
        let (h, target) = places[n - 1];
        reserved(index, places, child, publication, identity, (n - 1) as nat).insert(
            (child, h),
            Membership { target, publication, identity, process: 0 },
        )
    }
}

/// The directories with the first `n` places reserved.
pub open spec fn hidden(
    ds: Seq<DirView>,
    places: Seq<(usize, usize)>,
    child: u64,
    publication: usize,
    n: nat,
) -> Seq<DirView>
    decreases n,
{
    if n == 0 {
        ds
    } else {
        let before = hidden(ds, places, child, publication, (n - 1) as nat);
        let target = places[n - 1].1 as int;
        before.update(
            target,
            DirView { pids: before[target].pids.insert(child, publication), ..before[target] },
        )
    }
}

/// The index, the publication bits and the directories after a fork into `places`
/// was prepared.
pub open spec fn fork_effect(
    index: Index,
    bits: Seq<bool>,
    global_limit: usize,
    per_cgroup_limit: usize,
    hs: Seq<Hierarchy>,
    ds: Seq<DirView>,
    places: Seq<(usize, usize)>,
    child: u64,
    identity: usize,
) -> (Index, Seq<bool>, Seq<DirView>) {
    let publication = bits.len() as usize;
    match fork_outcome(index, global_limit, per_cgroup_limit, hs, ds, places, child) {
        None => if places.len() == 0 {
            (index, bits, ds)
        } else {
            (
                reserved(index, places, child, publication, identity, places.len()),
                bits.push(false),
                hidden(ds, places, child, publication, places.len()),
            )
        },
        Some(error) => (
            index,
            bits,
            if error == Error::WouldBlock {
                charged(hs, ds, (fork_refusal(hs, ds, places, 0)->0).1)
            } else {
                ds
            },
        ),
    }
}

/// The directories after the child was counted in the first `n` places.
pub open spec fn pending_peaks(
    index: Index,
    bits: Seq<bool>,
    validation: RegistryValidation,
    hs: Seq<Hierarchy>,
    ds: Seq<DirView>,
    places: Seq<(usize, usize)>,
    n: nat,
) -> Seq<DirView>
    decreases n,
{
    if n == 0 {
        ds
    } else {
        peaked(
            index,
            bits,
            validation,
            hs,
            pending_peaks(index, bits, validation, hs, ds, places, (n - 1) as nat),
            places[n - 1].1 as int,
            1,
        )
    }
}

/// Whether one of the places is below a frozen version-two directory.
pub open spec fn freezes(hs: Seq<Hierarchy>, ds: Seq<DirView>, places: Seq<(usize, usize)>) -> bool {
    exists|i: int|
        0 <= i < places.len() && version(hs, ds, (#[trigger] places[i]).1 as int)
            == CgroupVersion::V2 && frozen_above(ds, places[i].1 as int, 256)
}

/// The directories after the first `n` places were given back, and whether all of
/// them still were what the fork had reserved.
pub open spec fn given_back(
    index: Index,
    ds: Seq<DirView>,
    places: Seq<(usize, usize)>,
    child: u64,
    publication: usize,
    identity: usize,
    n: nat,
) -> (Seq<DirView>, bool)
    decreases n,
{
    if n == 0 {
        (ds, true)
    } else {
        let (before, exact) = given_back(
            index,
            ds,
            places,
            child,
            publication,
            identity,
            (n - 1) as nat,
        );
        let (h, target) = places[n - 1];
        let m = index[(child, h)];
        if exact && index.contains_key((child, h)) && m.publication == publication && m.target
            == target && m.identity == identity && before[target as int].pids.get(child) == Some(
            publication,
        ) {
            (
                before.update(
                    target as int,
                    DirView {
                        pids: before[target as int].pids.remove(child),
                        ..before[target as int]
                    },
                ),
                true,
            )
        } else {
            (before, false)
        }
    }
}

/// The index without any membership of `pid`.
pub open spec fn without(index: Index, pid: u64) -> Index {
    Map::new(|k: (u64, usize)| index.contains_key(k) && k.0 != pid, |k: (u64, usize)| index[k])
}

/// The index and the directories after an admission was rolled back.
pub open spec fn rollback_effect(
    index: Index,
    ds: Seq<DirView>,
    admission: CgroupForkAdmission,
) -> (Index, Seq<DirView>) {
    if admission.committed || admission.publication is None || !is_known(
        index,
        admission.child_pid,
    ) {
        (index, ds)
    } else {
        let (dirs, exact) = given_back(
            index,
            ds,
            admission.reservations@,
            admission.child_pid,
            admission.publication->0,
            admission.identity,
            admission.reservations@.len(),
        );
        (
            if exact {
                without(index, admission.child_pid)
            } else {
                index
            },
            dirs,
        )
    }
}

/// Places, each in a hierarchy and a directory that exist.
pub open spec fn places_exist(forest: Forest, places: Seq<(usize, usize)>) -> bool {
    forall|i: int|
        0 <= i < places.len() ==> (#[trigger] places[i]).0 < forest.hierarchies@.len()
            && places[i].1 < forest@.len()
}

impl CgroupForkAdmission {
    pub fn untracked(child_pid: u64, identity: usize) -> (admission: CgroupForkAdmission)
        ensures
            admission.child_pid == child_pid,
            admission.reservations@ == Seq::<(usize, usize)>::empty(),
            admission.publication is None,
            admission.identity == identity,
            !admission.committed,
    {
        CgroupForkAdmission {
            child_pid,
            reservations: Vec::new(),
            publication: None,
            identity,
            committed: false,
        }
    }
}

impl PidMembershipRegistry {
    /// Whether `pid` has a membership, or a place is held for it.
    pub fn knows(&self, hierarchies: usize, pid: u64) -> (known: bool)
        requires
            forall|k: (u64, usize)| #[trigger] self.index().contains_key(k) ==> k.1 < hierarchies,
        ensures
            known == is_known(self.index(), pid),
    {
        let mut h: usize = 0;
        while h < hierarchies
            invariant
                h <= hierarchies,
                forall|g: usize| g < h ==> !#[trigger] self.index().contains_key((pid, g)),
            decreases hierarchies - h,
        {
            if self.memberships.get(pid, h).is_some() {
                assert(self.index().contains_key((pid, h)));
                return true;
            }
            h = h + 1;
        }
        false
    }

    /// The first reason against a fork into `places`, which it also counts where it
    /// is a limit.
    fn refuse_fork(&self, forest: &mut Forest, places: &Vec<(usize, usize)>) -> (refusal: Option<
        Error,
    >)
        requires
            old(forest).indexed(),
            places_exist(*old(forest), places@),
        ensures
            ({
                let why = fork_refusal(old(forest).hierarchies@, old(forest)@, places@, 0);
                &&& refusal == (match why {
                    Some(w) => Some(w.0),
                    None => None::<Error>,
                })
                &&& final(forest)@ == (if refusal == Some(Error::WouldBlock) {
                    charged(old(forest).hierarchies@, old(forest)@, (why->0).1)
                } else {
                    old(forest)@
                })
            }),
            final(forest).hierarchies == old(forest).hierarchies,
            final(forest)@.len() == old(forest)@.len(),
            forall|x: int|
                #![trigger final(forest)@[x]]
                0 <= x < old(forest)@.len() ==> final(forest)@[x] == (DirView {
                    pids_events_limit: final(forest)@[x].pids_events_limit,
                    ..old(forest)@[x]
                }),
    {
        let ghost hs = forest.hierarchies@;
        let ghost ds = forest@;
        let mut i: usize = 0;
        while i < places.len()
            invariant
                i <= places@.len(),
                forest@ == ds,
                ds == old(forest)@,
                hs == old(forest).hierarchies@,
                forest.hierarchies == old(forest).hierarchies,
                forest.indexed(),
                places_exist(*old(forest), places@),
                fork_refusal(hs, ds, places@, 0) == fork_refusal(hs, ds, places@, i as nat),
            decreases places@.len() - i,
        {
            let target: usize = places[i].1;
            assert(places@[i as int].1 < forest@.len());
            if forest.v2_has_enabled_child_controllers(target) || (forest.version_of(target)
                == CgroupVersion::V2 && forest.is_effectively_frozen(target)) {
                return Some(Error::ResourceBusy);
            }
            if let Some(full) = forest.limiting_dir_for_fork(target) {
                assert(forest.dirs@[full as int]@ == ds[full as int]);
                let events: u64 = forest.dirs[full].pids_events_limit;
                if events == u64::MAX {
                    return Some(Error::BadState);
                }
                forest.set_pids_events_limit(full, events + 1);
                return Some(Error::WouldBlock);
            }
            i = i + 1;
        }
        None
    }

    /// Reserve every place for the child, with one hidden publication.
    ///
    /// Everything that can fail is decided before either index changes: a fork into
    /// several hierarchies is all or nothing.
    pub fn prepare_fork_set_locked(
        &mut self,
        forest: &mut Forest,
        places: Vec<(usize, usize)>,
        child_pid: u64,
        identity: usize,
    ) -> (result: Result<CgroupForkAdmission, Error>)
        requires
            old(forest).indexed(),
            old(self).refers(*old(forest)),
            places_exist(*old(forest), places@),
        ensures
            ({
                let why = fork_outcome(
                    old(self).index(),
                    old(self).global_limit,
                    old(self).per_cgroup_limit,
                    old(forest).hierarchies@,
                    old(forest)@,
                    places@,
                    child_pid,
                );
                match result {
                    Ok(admission) => {
                        &&& why is None
                        &&& admission.child_pid == child_pid
                        &&& admission.reservations@ == places@
                        &&& admission.publication == (if places@.len() == 0 {
                            None
                        } else {
                            Some(old(self).bits().len() as usize)
                        })
                        &&& admission.identity == identity
                        &&& !admission.committed
                    },
                    Err(error) => why == Some(error),
                }
            }),
            (final(self).index(), final(self).bits(), final(forest)@) == fork_effect(
                old(self).index(),
                old(self).bits(),
                old(self).global_limit,
                old(self).per_cgroup_limit,
                old(forest).hierarchies@,
                old(forest)@,
                places@,
                child_pid,
                identity,
            ),
            final(self).global_limit == old(self).global_limit,
            final(self).per_cgroup_limit == old(self).per_cgroup_limit,
            final(forest).hierarchies == old(forest).hierarchies,
            final(forest).indexed(),
            final(self).refers(*final(forest)),
    {
        let ghost hs = forest.hierarchies@;
        let ghost ds = forest@;
        let ghost index = self.index();
        if places.len() == 0 {
            assert(places@ =~= Seq::<(usize, usize)>::empty());
            return Ok(CgroupForkAdmission::untracked(child_pid, identity));
        }
        if let Some(error) = self.refuse_fork(forest, &places) {
            proof {
                same_indexes(*old(forest), *forest);
                same_references(*self, *self, *old(forest), *forest);
            }
            return Err(error);
        }
        assert(forest.hierarchies@ == hs && forest@ == ds);
        proof {
            same_indexes(*old(forest), *forest);
            same_references(*self, *self, *old(forest), *forest);
        }
        if self.knows(forest.hierarchies.len(), child_pid) {
            return Err(Error::AlreadyExists);
        }
        let count: usize = self.memberships.len();
        if count > self.global_limit || places.len() > self.global_limit - count {
            return Err(Error::NoMemory);
        }
        let mut i: usize = 0;
        while i < places.len()
            invariant
                i <= places@.len(),
                forest@ == ds,
                places_exist(*old(forest), places@),
                ds == old(forest)@,
                fork_crowded(ds, places@, child_pid, self.per_cgroup_limit, 0) == fork_crowded(
                    ds,
                    places@,
                    child_pid,
                    self.per_cgroup_limit,
                    i as nat,
                ),
                self.index() == index,
                self.bits() == old(self).bits(),
                index == old(self).index(),
                hs == old(forest).hierarchies@,
                forest.hierarchies == old(forest).hierarchies,
                forest.indexed(),
                self.refers(*forest),
                self.global_limit == old(self).global_limit,
                self.per_cgroup_limit == old(self).per_cgroup_limit,
                fork_refusal(hs, ds, places@, 0) is None,
                !is_known(index, child_pid),
                index.dom().len() + places@.len() <= self.global_limit,
                places@.len() > 0,
            decreases places@.len() - i,
        {
            let target: usize = places[i].1;
            assert(places@[i as int].1 < forest@.len());
            assert(forest.dirs@[target as int]@ == ds[target as int]);
            if forest.pid_publication(target, child_pid).is_some() {
                return Err(Error::AlreadyExists);
            }
            if forest.dirs[target].pids.len() >= self.per_cgroup_limit {
                return Err(Error::NoMemory);
            }
            i = i + 1;
        }
        let publication: usize = self.publications.len();
        self.publications.push(false);
        let mut n: usize = 0;
        while n < places.len()
            invariant
                n <= places@.len(),
                places_exist(*old(forest), places@),
                ds == old(forest)@,
                index == old(self).index(),
                forest.hierarchies == old(forest).hierarchies,
                old(forest).indexed(),
                old(self).refers(*old(forest)),
                self.global_limit == old(self).global_limit,
                self.per_cgroup_limit == old(self).per_cgroup_limit,
                publication == old(self).bits().len(),
                self.bits() == old(self).bits().push(false),
                forest@.len() == ds.len(),
                forest.indexed(),
                self.refers(*forest),
                forest@ == hidden(ds, places@, child_pid, publication, n as nat),
                self.index() == reserved(
                    index,
                    places@,
                    child_pid,
                    publication,
                    identity,
                    n as nat,
                ),
            decreases places@.len() - n,
        {
            let (h, target) = places[n];
            assert(places@[n as int].1 < ds.len());
            let ghost before = *forest;
            let ghost registry = *self;
            forest.insert_pid(target, child_pid, publication);
            self.memberships.insert(
                child_pid,
                h,
                Membership { target, publication, identity, process: 0 },
            );
            proof {
                same_indexes(before, *forest);
                assert forall|x: int, p: u64|
                    0 <= x < forest@.len() && #[trigger] forest@[x].pids.contains_key(p) implies forest@[x].pids[p]
                    < self.bits().len() by {
                    if !(x == target && p == child_pid) {
                        assert(before@[x].pids.contains_key(p));
                    }
                }
                assert forall|k: (u64, usize)| #[trigger] self.index().contains_key(k) implies {
                    &&& self.index()[k].target < forest@.len()
                    &&& self.index()[k].publication < self.bits().len()
                    &&& k.1 < forest.hierarchies@.len()
                } by {
                    if k != (child_pid, h) {
                        assert(registry.index().contains_key(k));
                    }
                }
            }
            n = n + 1;
        }
        Ok(
            CgroupForkAdmission {
                child_pid,
                reservations: places,
                publication: Some(publication),
                identity,
                committed: false,
            },
        )
    }

    /// Admit a child into the directories of a parent that no process is bound to.
    pub fn prepare_charge_from(&mut self, forest: &mut Forest, parent_pid: u64, child_pid: u64) -> (result:
        Result<CgroupForkAdmission, Error>)
        requires
            old(forest).indexed(),
            old(self).refers(*old(forest)),
        ensures
            ({
                let index = old(self).index();
                let bits = old(self).bits();
                let ds = old(forest)@;
                let hs = old(forest).hierarchies@;
                let places = targets(index, bits, ds, parent_pid, None, false, hs.len());
                if pending(index, bits, parent_pid, None, hs.len()) {
                    &&& result is Err && result->Err_0 == Error::ResourceBusy
                    &&& (final(self).index(), final(self).bits(), final(forest)@) == (
                        index,
                        bits,
                        ds,
                    )
                } else {
                    &&& fork_promise(result, *old(self), *old(forest), places, child_pid, 0)
                    &&& (final(self).index(), final(self).bits(), final(forest)@) == fork_effect(
                        index,
                        bits,
                        old(self).global_limit,
                        old(self).per_cgroup_limit,
                        hs,
                        ds,
                        places,
                        child_pid,
                        0,
                    )
                }
            }),
            final(self).global_limit == old(self).global_limit,
            final(self).per_cgroup_limit == old(self).per_cgroup_limit,
            final(forest).hierarchies == old(forest).hierarchies,
            final(forest).indexed(),
            final(self).refers(*final(forest)),
    {
        match self.visible_targets_without_identity_locked(forest, parent_pid) {
            Ok(places) => {
                proof {
                    targets_exist(
                        *self,
                        *forest,
                        parent_pid,
                        None,
                        forest.hierarchies@.len(),
                    );
                }
                self.prepare_fork_set_locked(forest, places, child_pid, 0)
            },
            Err(error) => Err(error),
        }
    }

    /// Make the reserved places visible, and say whether the child must park before
    /// it first returns to user mode.
    ///
    /// `process` is the identity and the number of the child's process, and `gone`
    /// lists the identities of processes that no longer exist.
    pub fn commit(
        &mut self,
        forest: &mut Forest,
        validation: &RegistryValidation,
        admission: &mut CgroupForkAdmission,
        process: Option<(usize, usize)>,
        gone: &Vec<usize>,
    ) -> (freeze: bool)
        requires
            old(forest).indexed(),
            old(self).refers(*old(forest)),
            places_exist(*old(forest), old(admission).reservations@),
            old(admission).publication is Some ==> old(admission).publication->0 < old(
                self,
            ).bits().len(),
            freezes(old(forest).hierarchies@, old(forest)@, old(admission).reservations@)
                ==> process is Some,
        ensures
            freeze == freezes(
                old(forest).hierarchies@,
                old(forest)@,
                old(admission).reservations@,
            ),
            final(self).index() == (if old(admission).reservations@.len() > 0 && process is Some {
                bound(
                    old(self).index(),
                    old(admission).child_pid,
                    (process->0).0,
                    (process->0).1,
                    gone@,
                )
            } else {
                old(self).index()
            }),
            final(self).bits() == (match old(admission).publication {
                Some(publication) => old(self).bits().update(publication as int, true),
                None => old(self).bits(),
            }),
            final(forest)@ == pending_peaks(
                final(self).index(),
                old(self).bits(),
                *validation,
                old(forest).hierarchies@,
                old(forest)@,
                old(admission).reservations@,
                old(admission).reservations@.len(),
            ),
            *final(admission) == (CgroupForkAdmission { committed: true, ..*old(admission) }),
            final(self).global_limit == old(self).global_limit,
            final(self).per_cgroup_limit == old(self).per_cgroup_limit,
            final(forest).hierarchies == old(forest).hierarchies,
            final(forest).indexed(),
            final(self).refers(*final(forest)),
    {
        let ghost hs = forest.hierarchies@;
        let ghost ds = forest@;
        let ghost places = admission.reservations@;
        let mut freeze: bool = false;
        let mut i: usize = 0;
        while i < admission.reservations.len()
            invariant
                i <= places.len(),
                places == admission.reservations@,
                *admission == *old(admission),
                forest@ == ds,
                forest.hierarchies@ == hs,
                forest.indexed(),
                places_exist(*forest, places),
                freeze == exists|j: int|
                    0 <= j < i && version(hs, ds, (#[trigger] places[j]).1 as int)
                        == CgroupVersion::V2 && frozen_above(ds, places[j].1 as int, 256),
            decreases places.len() - i,
        {
            let target: usize = admission.reservations[i].1;
            assert(places[i as int].1 == target);
            if forest.version_of(target) == CgroupVersion::V2 && forest.is_effectively_frozen(
                target,
            ) {
                freeze = true;
            }
            i = i + 1;
        }
        if admission.reservations.len() > 0 {
            if let Some((identity, number)) = process {
                let hierarchies: usize = forest.hierarchies.len();
                self.bind_process(hierarchies, admission.child_pid, identity, number, gone);
                proof {
                    same_references(*old(self), *self, *old(forest), *forest);
                }
            }
        }
        let ghost index = self.index();
        let ghost bits = self.bits();
        let mut n: usize = 0;
        while n < admission.reservations.len()
            invariant
                n <= places.len(),
                places == admission.reservations@,
                *admission == *old(admission),
                places_exist(*old(forest), places),
                forest.hierarchies@ == hs,
                forest.hierarchies == old(forest).hierarchies,
                forest.indexed(),
                forest@.len() == old(forest)@.len(),
                ds == old(forest)@,
                self.refers(*forest),
                self.index() == index,
                self.bits() == bits,
                bits == old(self).bits(),
                self.global_limit == old(self).global_limit,
                self.per_cgroup_limit == old(self).per_cgroup_limit,
                forest@ == pending_peaks(index, bits, *validation, hs, ds, places, n as nat),
            decreases places.len() - n,
        {
            let target: usize = admission.reservations[n].1;
            assert(places[n as int].1 == target);
            let ghost before = *forest;
            self.update_pids_peak_hierarchy(forest, validation, target, true);
            proof {
                same_indexes(before, *forest);
                same_references(*self, *self, before, *forest);
            }
            n = n + 1;
        }
        if let Some(publication) = admission.publication {
            self.publications.set(publication, true);
        }
        admission.committed = true;
        freeze
    }

    /// Give the places of an admission that was not committed back.  Where one of
    /// them is no longer what was reserved, the rest is left as it is.
    pub fn rollback(&mut self, forest: &mut Forest, admission: &CgroupForkAdmission)
        requires
            old(forest).indexed(),
            old(self).refers(*old(forest)),
            places_exist(*old(forest), admission.reservations@),
        ensures
            (final(self).index(), final(forest)@) == rollback_effect(
                old(self).index(),
                old(forest)@,
                *admission,
            ),
            final(self).bits() == old(self).bits(),
            final(self).global_limit == old(self).global_limit,
            final(self).per_cgroup_limit == old(self).per_cgroup_limit,
            final(forest).hierarchies == old(forest).hierarchies,
            final(forest).indexed(),
            final(self).refers(*final(forest)),
    {
        let ghost ds = forest@;
        let ghost index = self.index();
        let ghost places = admission.reservations@;
        let child: u64 = admission.child_pid;
        let hierarchies: usize = forest.hierarchies.len();
        if admission.committed || !self.knows(hierarchies, child) {
            return;
        }
        let publication: usize = match admission.publication {
            Some(publication) => publication,
            None => {
                return;
            },
        };
        let mut n: usize = 0;
        while n < admission.reservations.len()
            invariant
                n <= places.len(),
                places == admission.reservations@,
                places_exist(*old(forest), places),
                child == admission.child_pid,
                admission.publication == Some(publication),
                !admission.committed,
                is_known(index, child),
                forest@.len() == old(forest)@.len(),
                forest.hierarchies == old(forest).hierarchies,
                ds == old(forest)@,
                index == old(self).index(),
                forest.indexed(),
                self.refers(*forest),
                self.index() == index,
                self.bits() == old(self).bits(),
                self.global_limit == old(self).global_limit,
                self.per_cgroup_limit == old(self).per_cgroup_limit,
                (forest@, true) == given_back(
                    index,
                    ds,
                    places,
                    child,
                    publication,
                    admission.identity,
                    n as nat,
                ),
            decreases places.len() - n,
        {
            let (h, target) = admission.reservations[n];
            assert(places[n as int] == (h, target));
            let exact_global = match self.memberships.get(child, h) {
                Some(m) => m.publication == publication && m.target == target && m.identity
                    == admission.identity,
                None => false,
            };
            let exact_target = match forest.pid_publication(target, child) {
                Some(current) => current == publication,
                None => false,
            };
            if !exact_global || !exact_target {
                proof {
                    stays_inexact(
                        index,
                        ds,
                        places,
                        child,
                        publication,
                        admission.identity,
                        (n + 1) as nat,
                        places.len(),
                    );
                }
                return;
            }
            let ghost before = *forest;
            forest.remove_pid(target, child);
            proof {
                same_indexes(before, *forest);
                same_references(*self, *self, before, *forest);
            }
            n = n + 1;
        }
        let mut h: usize = 0;
        while h < hierarchies
            invariant
                h <= hierarchies,
                hierarchies == forest.hierarchies@.len(),
                old(self).refers(*old(forest)),
                index == old(self).index(),
                self.bits() == old(self).bits(),
                self.global_limit == old(self).global_limit,
                self.per_cgroup_limit == old(self).per_cgroup_limit,
                self.refers(*forest),
                forall|k: (u64, usize)|
                    #[trigger] self.index().contains_key(k) <==> index.contains_key(k) && !(k.0
                        == child && k.1 < h),
                forall|k: (u64, usize)|
                    #[trigger] self.index().contains_key(k) ==> self.index()[k] == index[k],
            decreases hierarchies - h,
        {
            let ghost before = *self;
            self.memberships.remove(child, h);
            assert forall|k: (u64, usize)| #[trigger] self.index().contains_key(k) implies {
                &&& self.index()[k].target < forest@.len()
                &&& self.index()[k].publication < self.bits().len()
                &&& k.1 < forest.hierarchies@.len()
                &&& self.index()[k] == index[k]
            } by {
                assert(before.index().contains_key(k));
            }
            assert forall|k: (u64, usize)| #[trigger]
                self.index().contains_key(k) <==> index.contains_key(k) && !(k.0 == child && k.1
                    < h + 1) by {
                assert(before.index().contains_key(k) <==> index.contains_key(k) && !(k.0 == child
                    && k.1 < h));
            }
            h = h + 1;
        }
        assert forall|k: (u64, usize)| #[trigger] self.index().contains_key(k) implies without(
            index,
            child,
        ).contains_key(k) by {
            assert(old(self).index().contains_key(k));
        }
        assert(self.index() =~= without(index, child));
    }
}

/// What [`PidMembershipRegistry::prepare_fork_set_locked`] says of its result.
pub open spec fn fork_promise(
    result: Result<CgroupForkAdmission, Error>,
    registry: PidMembershipRegistry,
    forest: Forest,
    places: Seq<(usize, usize)>,
    child: u64,
    identity: usize,
) -> bool {
    let why = fork_outcome(
        registry.index(),
        registry.global_limit,
        registry.per_cgroup_limit,
        forest.hierarchies@,
        forest@,
        places,
        child,
    );
    match result {
        Ok(admission) => {
            &&& why is None
            &&& admission.child_pid == child
            &&& admission.reservations@ == places
            &&& admission.publication == (if places.len() == 0 {
                None
            } else {
                Some(registry.bits().len() as usize)
            })
            &&& admission.identity == identity
            &&& !admission.committed
        },
        Err(error) => why == Some(error),
    }
}

/// References stay good where no directory's table of processes grew.
pub proof fn same_references(
    before: PidMembershipRegistry,
    after: PidMembershipRegistry,
    forest: Forest,
    changed: Forest,
)
    requires
        before.refers(forest),
        after.bits().len() == before.bits().len(),
        changed@.len() == forest@.len(),
        changed.hierarchies == forest.hierarchies,
        forall|k: (u64, usize)| #[trigger]
            after.index().contains_key(k) ==> before.index().contains_key(k)
                && after.index()[k].target == before.index()[k].target
                && after.index()[k].publication == before.index()[k].publication,
        forall|x: int, pid: u64|
            0 <= x < forest@.len() && #[trigger] changed@[x].pids.contains_key(pid)
                ==> forest@[x].pids.contains_key(pid) && changed@[x].pids[pid]
                == forest@[x].pids[pid],
    ensures
        after.refers(changed),
{
}

/// Inherited places exist.
pub proof fn targets_exist(
    registry: PidMembershipRegistry,
    forest: Forest,
    pid: u64,
    identity: Option<usize>,
    n: nat,
)
    requires
        registry.refers(forest),
        n <= forest.hierarchies@.len(),
    ensures
        places_exist(
            forest,
            targets(registry.index(), registry.bits(), forest@, pid, identity, false, n),
        ),
    decreases n,
{
    if n > 0 {
        targets_exist(registry, forest, pid, identity, (n - 1) as nat);
        let h = (n - 1) as usize;
        if registry.index().contains_key((pid, h)) {
            assert(registry.index()[(pid, h)].target < forest@.len());
        }
    }
}

/// Once a place is not what was reserved, nothing more is given back.
proof fn stays_inexact(
    index: Index,
    ds: Seq<DirView>,
    places: Seq<(usize, usize)>,
    child: u64,
    publication: usize,
    identity: usize,
    n: nat,
    m: nat,
)
    requires
        n <= m,
        !given_back(index, ds, places, child, publication, identity, n).1,
    ensures
        given_back(index, ds, places, child, publication, identity, m) == given_back(
            index,
            ds,
            places,
            child,
            publication,
            identity,
            n,
        ),
    decreases m,
{
    if m > n {
        stays_inexact(index, ds, places, child, publication, identity, n, (m - 1) as nat);
    }
}

} // verus!
