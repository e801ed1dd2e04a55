//! Moving processes, and forking them, with their identities.

use vstd::prelude::*;
use crate::cgroup::admission::{fork_effect, fork_outcome, places_exist, same_references,
    targets_exist, CgroupForkAdmission};
use crate::cgroup::forest::{is_internal, version, CgroupVersion, DirView, Forest};
use crate::cgroup::lookup::{bound, forgotten, pending, released, targets, tidied};
use crate::cgroup::registry::{attach_effect, attach_outcome, same_indexes, Index,
    PidMembershipRegistry, RegistryValidation};
use crate::cgroup::uclamp::{next_generation, UclampPolicy};
use crate::error::Error;

verus! {

/// Both indexes after the memberships that `pid` has from an earlier owner of the
/// number were dropped.
pub open spec fn purged_of(
    index: Index,
    bits: Seq<bool>,
    ds: Seq<DirView>,
    hierarchies: nat,
    pid: u64,
    identity: usize,
) -> (Index, Seq<DirView>) {
    (
        forgotten(index, pid, identity, false),
        released(index, bits, ds, pid, identity, false, hierarchies),
    )
}

/// The places without those of one hierarchy.
pub open spec fn elsewhere(places: Seq<(usize, usize)>, h: usize, n: nat) -> Seq<(usize, usize)>
    decreases n,
{
    if n == 0 {
        Seq::empty()
    } else {
        let rest = elsewhere(places, h, (n - 1) as nat);
        if places[n - 1].0 == h {
            rest
        } else {
            rest.push(places[n - 1])
        }
    }
}

/// What comes of admitting a child into `target`, and into its parent's directories in
/// every other hierarchy.
pub open spec fn fork_attached(
    before: PidMembershipRegistry,
    after: PidMembershipRegistry,
    forest: Forest,
    changed: Forest,
    parent_pid: u64,
    parent: Result<usize, Error>,
    target: usize,
    child_pid: u64,
    child: usize,
    result: Result<CgroupForkAdmission, Error>,
) -> bool {
    let hs = forest.hierarchies@;
    let bits = before.bits();
    let h = forest@[target as int].hierarchy;
    let own = purged_of(
        before.index(),
        bits,
        forest@,
        hs.len(),
        child_pid,
        child,
    );
    match parent {
        Err(expected) => {
            &&& result is Err && result->Err_0 == expected
            &&& (after.index(), changed@) == own
            &&& after.bits() == bits
        },
        Ok(identity) => {
            let both = purged_of(
                own.0,
                bits,
                own.1,
                hs.len(),
                parent_pid,
                identity,
            );
            let inherited = targets(
                both.0,
                bits,
                both.1,
                parent_pid,
                Some(identity),
                false,
                hs.len(),
            );
            let places = elsewhere(inherited, h, inherited.len()).push((h, target));
            if hs[h as int].version != CgroupVersion::V2 {
                &&& result is Err && result->Err_0 == Error::InvalidInput
                &&& (after.index(), changed@) == both
                &&& after.bits() == bits
            } else if pending(both.0, bits, parent_pid, Some(identity), hs.len()) {
                &&& result is Err && result->Err_0 == Error::ResourceBusy
                &&& (after.index(), changed@) == both
                &&& after.bits() == bits
            } else {
                let tidy = tidied(both.0, both.1, parent_pid, identity);
                &&& (after.index(), after.bits(), changed@)
                    == fork_effect(
                    tidy,
                    bits,
                    before.global_limit,
                    before.per_cgroup_limit,
                    hs,
                    both.1,
                    places,
                    child_pid,
                    child,
                )
                &&& match result {
                    Ok(admission) => {
                        &&& admission.child_pid == child_pid
                        &&& admission.reservations@ == places
                        &&& admission.identity == child
                        &&& !admission.committed
                        &&& admission.publication == Some(bits.len() as usize)
                        &&& fork_outcome(
                            tidy,
                            before.global_limit,
                            before.per_cgroup_limit,
                            hs,
                            both.1,
                            places,
                            child_pid,
                        ) is None
                    },
                    Err(error) => fork_outcome(
                        tidy,
                        before.global_limit,
                        before.per_cgroup_limit,
                        hs,
                        both.1,
                        places,
                        child_pid,
                    ) == Some(error),
                }
            }
        },
    }
}

impl PidMembershipRegistry {
    proof fn purge_keeps(
        before: PidMembershipRegistry,
        after: PidMembershipRegistry,
        forest: Forest,
        changed: Forest,
        pid: u64,
        identity: usize,
    )
        requires
            before.refers(forest),
            forest.indexed(),
            after.bits() == before.bits(),
            changed.hierarchies == forest.hierarchies,
            (after.index(), changed@) == purged_of(
                before.index(),
                before.bits(),
                forest@,
                forest.hierarchies@.len(),
                pid,
                identity,
            ),
        ensures
            after.refers(changed),
            changed.indexed(),
    {
        same_indexes(forest, changed);
        assert forall|k: (u64, usize)| #[trigger]
            after.index().contains_key(k) implies before.index().contains_key(k)
            && after.index()[k].target == before.index()[k].target
            && after.index()[k].publication == before.index()[k].publication by {}
        assert forall|x: int, p: u64|
            0 <= x < forest@.len() && #[trigger] changed@[x].pids.contains_key(
                p,
            ) implies forest@[x].pids.contains_key(p) && changed@[x].pids[p]
            == forest@[x].pids[p] by {}
        same_references(before, after, forest, changed);
    }

    /// Move a process.  Its memberships of an earlier owner of the number go first;
    /// those it then has are bound to it.  The move and the clamp policy share one
    /// update: a snapshot sees the old directory and the old generation, or the new
    /// pair.
    pub fn try_attach_process(
        &mut self,
        forest: &mut Forest,
        policy: &mut UclampPolicy,
        validation: &RegistryValidation,
        target: usize,
        pid: u64,
        identity: usize,
        process: usize,
        gone: &Vec<usize>,
    ) -> (result: Result<bool, Error>)
        requires
            old(forest).indexed(),
            old(self).refers(*old(forest)),
            target < old(forest)@.len(),
            old(policy).wf(),
        ensures
            ({
                let hs = old(forest).hierarchies@;
                let own = purged_of(
                    old(self).index(),
                    old(self).bits(),
                    old(forest)@,
                    hs.len(),
                    pid,
                    identity,
                );
                let after = attach_effect(
                    own.0,
                    old(self).bits(),
                    old(self).global_limit,
                    old(self).per_cgroup_limit,
                    *validation,
                    hs,
                    own.1,
                    target,
                    pid,
                    false,
                );
                &&& result == attach_outcome(
                    own.0,
                    old(self).bits(),
                    old(self).global_limit,
                    old(self).per_cgroup_limit,
                    hs,
                    own.1,
                    target,
                    pid,
                    false,
                )
                &&& final(self).index() == (if result is Ok {
                    bound(after.0, pid, identity, process, gone@)
                } else {
                    after.0
                })
                &&& final(self).bits() == after.1
                &&& final(forest)@ == after.2
            }),
            *final(policy) == (UclampPolicy {
                generation: next_generation(old(policy).generation),
                ..*old(policy)
            }),
            final(policy).wf(),
            final(self).global_limit == old(self).global_limit,
            final(self).per_cgroup_limit == old(self).per_cgroup_limit,
            final(forest).hierarchies == old(forest).hierarchies,
            final(forest).indexed(),
            final(self).refers(*final(forest)),
    {
        self.purge_reused_pid(forest, pid, identity);
        proof {
            Self::purge_keeps(*old(self), *self, *old(forest), *forest, pid, identity);
        }
        policy.begin_uclamp_policy_update();
        let result = self.try_attach_locked(forest, validation, target, pid, false);
        if result.is_ok() {
            let hierarchies: usize = forest.hierarchies.len();
            let ghost before = *self;
            self.bind_process(hierarchies, pid, identity, process, gone);
            proof {
                same_references(before, *self, *forest, *forest);
            }
        }
        let _ = policy.finish_uclamp_policy_update();
        result
    }

    /// Admit a child into the directories of its parent, whose identity was looked
    /// up.
    pub fn prepare_charge_from_for_child(
        &mut self,
        forest: &mut Forest,
        parent_pid: u64,
        parent: Result<usize, Error>,
        child_pid: u64,
        child: usize,
    ) -> (result: Result<CgroupForkAdmission, Error>)
        requires
            old(forest).indexed(),
            old(self).refers(*old(forest)),
        ensures
            ({
                let hs = old(forest).hierarchies@;
                let bits = old(self).bits();
                let own = purged_of(
                    old(self).index(),
                    bits,
                    old(forest)@,
                    hs.len(),
                    child_pid,
                    child,
                );
                match parent {
                    Err(expected) => {
                        &&& result is Err && result->Err_0 == expected
                        &&& (final(self).index(), final(forest)@) == own
                        &&& final(self).bits() == bits
                    },
                    Ok(identity) => {
                        let both = purged_of(
                            own.0,
                            bits,
                            own.1,
                            hs.len(),
                            parent_pid,
                            identity,
                        );
                        let places = targets(
                            both.0,
                            bits,
                            both.1,
                            parent_pid,
                            Some(identity),
                            false,
                            hs.len(),
                        );
                        if pending(both.0, bits, parent_pid, Some(identity), hs.len()) {
                            &&& result is Err && result->Err_0 == Error::ResourceBusy
                            &&& (final(self).index(), final(forest)@) == both
                            &&& final(self).bits() == bits
                        } else {
                            let tidy = tidied(both.0, both.1, parent_pid, identity);
                            &&& (final(self).index(), final(self).bits(), final(forest)@)
                                == fork_effect(
                                tidy,
                                bits,
                                old(self).global_limit,
                                old(self).per_cgroup_limit,
                                hs,
                                both.1,
                                places,
                                child_pid,
                                child,
                            )
                            &&& match result {
                                Ok(admission) => {
                                    &&& admission.child_pid == child_pid
                                    &&& admission.reservations@ == places
                                    &&& admission.identity == child
                                    &&& !admission.committed
                                    &&& admission.publication == (if places.len() == 0 {
                                        None
                                    } else {
                                        Some(bits.len() as usize)
                                    })
                                    &&& fork_outcome(
                                        tidy,
                                        old(self).global_limit,
                                        old(self).per_cgroup_limit,
                                        hs,
                                        both.1,
                                        places,
                                        child_pid,
                                    ) is None
                                },
                                Err(error) => fork_outcome(
                                    tidy,
                                    old(self).global_limit,
                                    old(self).per_cgroup_limit,
                                    hs,
                                    both.1,
                                    places,
                                    child_pid,
                                ) == Some(error),
                            }
                        }
                    },
                }
            }),
            final(self).global_limit == old(self).global_limit,
            final(self).per_cgroup_limit == old(self).per_cgroup_limit,
            final(forest).hierarchies == old(forest).hierarchies,
            final(forest).indexed(),
            final(self).refers(*final(forest)),
    {
        self.purge_reused_pid(forest, child_pid, child);
        proof {
            Self::purge_keeps(*old(self), *self, *old(forest), *forest, child_pid, child);
        }
        let identity: usize = match parent {
            Ok(identity) => identity,
            Err(error) => {
                return Err(error);
            },
        };
        let ghost registry = *self;
        let ghost dirs = *forest;
        self.purge_reused_pid(forest, parent_pid, identity);
        proof {
            Self::purge_keeps(registry, *self, dirs, *forest, parent_pid, identity);
            targets_exist(
                *self,
                *forest,
                parent_pid,
                Some(identity),
                forest.hierarchies@.len(),
            );
        }
        let ghost both = *self;
        match self.visible_targets_locked(forest, parent_pid, identity) {
            Ok(places) => {
                proof {
                    same_references(both, *self, *forest, *forest);
                }
                self.prepare_fork_set_locked(forest, places, child_pid, child)
            },
            Err(error) => Err(error),
        }
    }

    /// Admit a child into a directory of the unified hierarchy, and into those of
    /// its parent in every other hierarchy.
    pub fn prepare_fork_attach_from(
        &mut self,
        forest: &mut Forest,
        parent_pid: u64,
        parent: Result<usize, Error>,
        target: usize,
        child_pid: u64,
        child: usize,
    ) -> (result: Result<CgroupForkAdmission, Error>)
        requires
            old(forest).indexed(),
            old(self).refers(*old(forest)),
            target < old(forest)@.len(),
        ensures
            fork_attached(
                *old(self),
                *final(self),
                *old(forest),
                *final(forest),
                parent_pid,
                parent,
                target,
                child_pid,
                child,
                result,
            ),
            final(self).global_limit == old(self).global_limit,
            final(self).per_cgroup_limit == old(self).per_cgroup_limit,
            final(forest).hierarchies == old(forest).hierarchies,
            final(forest).indexed(),
            final(self).refers(*final(forest)),
    {
        self.purge_reused_pid(forest, child_pid, child);
        proof {
            Self::purge_keeps(*old(self), *self, *old(forest), *forest, child_pid, child);
        }
        let identity: usize = match parent {
            Ok(identity) => identity,
            Err(error) => {
                return Err(error);
            },
        };
        let ghost registry = *self;
        let ghost dirs = *forest;
        self.purge_reused_pid(forest, parent_pid, identity);
        proof {
            Self::purge_keeps(registry, *self, dirs, *forest, parent_pid, identity);
            targets_exist(
                *self,
                *forest,
                parent_pid,
                Some(identity),
                forest.hierarchies@.len(),
            );
        }
        assert(forest@[target as int].hierarchy == old(forest)@[target as int].hierarchy);
        assert(forest.dirs@[target as int]@ == forest@[target as int]);
        let h: usize = forest.dirs[target].hierarchy;
        if forest.version_of(target) != CgroupVersion::V2 {
            return Err(Error::InvalidInput);
        }
        let ghost both = *self;
        match self.visible_targets_locked(forest, parent_pid, identity) {
            Ok(inherited) => {
                let mut places: Vec<(usize, usize)> = Vec::new();
                let mut i: usize = 0;
                while i < inherited.len()
                    invariant
                        i <= inherited@.len(),
                        places@ == elsewhere(inherited@, h, i as nat),
                        places_exist(*forest, inherited@),
                        places_exist(*forest, places@),
                    decreases inherited@.len() - i,
                {
                    let place: (usize, usize) = inherited[i];
                    assert(inherited@[i as int] == place);
                    if place.0 != h {
                        places.push(place);
                    }
                    i = i + 1;
                }
                places.push((h, target));
                proof {
                    same_references(both, *self, *forest, *forest);
                }
                self.prepare_fork_set_locked(forest, places, child_pid, child)
            },
            Err(error) => Err(error),
        }
    }

    /// [`Self::prepare_fork_attach_from`], for a directory that a caller names: it has to
    /// be one of the unified hierarchy that takes processes.
    pub fn prepare_fork_charge_into(
        &mut self,
        forest: &mut Forest,
        parent_pid: u64,
        parent: Result<usize, Error>,
        target: usize,
        child_pid: u64,
        child: usize,
    ) -> (result: Result<CgroupForkAdmission, Error>)
        requires
            old(forest).indexed(),
            old(self).refers(*old(forest)),
            target < old(forest)@.len(),
        ensures
            if version(old(forest).hierarchies@, old(forest)@, target as int) != CgroupVersion::V2 {
                &&& result is Err && result->Err_0 == Error::InvalidInput
                &&& *final(self) == *old(self) && *final(forest) == *old(forest)
            } else if is_internal(old(forest).hierarchies@, old(forest)@, target as int) {
                &&& result is Err && result->Err_0 == Error::ResourceBusy
                &&& *final(self) == *old(self) && *final(forest) == *old(forest)
            } else {
                fork_attached(
                    *old(self),
                    *final(self),
                    *old(forest),
                    *final(forest),
                    parent_pid,
                    parent,
                    target,
                    child_pid,
                    child,
                    result,
                )
            },
            final(self).global_limit == old(self).global_limit,
            final(self).per_cgroup_limit == old(self).per_cgroup_limit,
            final(forest).hierarchies == old(forest).hierarchies,
            final(forest).indexed(),
            final(self).refers(*final(forest)),
    {
        if forest.version_of(target) != CgroupVersion::V2 {
            return Err(Error::InvalidInput);
        }
        if forest.v2_has_enabled_child_controllers(target) {
            return Err(Error::ResourceBusy);
        }
        self.prepare_fork_attach_from(forest, parent_pid, parent, target, child_pid, child)
    }
}

} // verus!
