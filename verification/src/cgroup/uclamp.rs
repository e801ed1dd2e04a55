//! The scheduler's utilization clamps: the system-wide controls, and the handoff
//! that gets a committed change to every task.

use vstd::prelude::*;
use crate::cgroup::admission::{places_exist, CgroupForkAdmission};
use crate::cgroup::forest::{chain, effective_clamp, max16, min16, narrowed, parent_of, CgroupVersion,
    DirView, Forest, Hierarchy};
use crate::error::Error;

verus! {

/// The largest clamp.
pub const MAX_UCLAMP: u16 = 1024;

/// The system-wide clamps.
///
/// They are one tuple, rather than independent values: no reader observes a minimum
/// greater than the maximum.  The limits of a version-two group begin with this
/// tuple and then narrow through its parents.
#[derive(Clone, Copy, Debug, PartialEq, Eq, Structural)]
pub struct SchedUtilClampControls {
    pub minimum: u16,
    pub maximum: u16,
    pub minimum_rt_default: u16,
}

impl SchedUtilClampControls {
    /// The minimum is no greater than the maximum, and nothing exceeds the largest
    /// clamp.
    pub open spec fn wf(self) -> bool {
        self.minimum <= self.maximum <= MAX_UCLAMP && self.minimum_rt_default <= MAX_UCLAMP
    }

    pub fn unrestricted() -> (controls: SchedUtilClampControls)
        ensures
            controls == (SchedUtilClampControls {
                minimum: 0,
                maximum: 1024,
                minimum_rt_default: 1024,
            }),
            controls.wf(),
    {
        SchedUtilClampControls { minimum: 0, maximum: MAX_UCLAMP, minimum_rt_default: MAX_UCLAMP }
    }

    pub fn set_minimum(&mut self, value: u16) -> (result: Result<(), Error>)
        ensures
            match result {
                Ok(()) => value <= old(self).maximum && *final(self) == (SchedUtilClampControls {
                    minimum: value,
                    ..*old(self)
                }),
                Err(error) => error == Error::InvalidInput && value > old(self).maximum
                    && *final(self) == *old(self),
            },
            old(self).wf() ==> final(self).wf(),
    {
        if value > self.maximum {
            return Err(Error::InvalidInput);
        }
        self.minimum = value;
        Ok(())
    }

    pub fn set_maximum(&mut self, value: u16) -> (result: Result<(), Error>)
        ensures
            match result {
                Ok(()) => old(self).minimum <= value <= MAX_UCLAMP && *final(self) == (
                SchedUtilClampControls { maximum: value, ..*old(self) }),
                Err(error) => error == Error::InvalidInput && !(old(self).minimum <= value
                    <= MAX_UCLAMP) && *final(self) == *old(self),
            },
            old(self).wf() ==> final(self).wf(),
    {
        if value > MAX_UCLAMP || value < self.minimum {
            return Err(Error::InvalidInput);
        }
        self.maximum = value;
        Ok(())
    }

    pub fn set_minimum_rt_default(&mut self, value: u16) -> (result: Result<(), Error>)
        ensures
            match result {
                Ok(()) => value <= MAX_UCLAMP && *final(self) == (SchedUtilClampControls {
                    minimum_rt_default: value,
                    ..*old(self)
                }),
                Err(error) => error == Error::InvalidInput && value > MAX_UCLAMP && *final(self)
                    == *old(self),
            },
            old(self).wf() ==> final(self).wf(),
    {
        if value > MAX_UCLAMP {
            return Err(Error::InvalidInput);
        }
        self.minimum_rt_default = value;
        Ok(())
    }
}

/// Which of the system-wide clamps is written.
#[derive(Clone, Copy, Debug, PartialEq, Eq, Structural)]
pub enum ClampControl {
    Minimum,
    Maximum,
    MinimumRtDefault,
}

/// The controls after a write, where they admit it.
pub open spec fn controls_after(
    controls: SchedUtilClampControls,
    which: ClampControl,
    value: u16,
) -> Option<SchedUtilClampControls> {
    match which {
        ClampControl::Minimum => if value <= controls.maximum {
            Some(SchedUtilClampControls { minimum: value, ..controls })
        } else {
            None
        },
        ClampControl::Maximum => if controls.minimum <= value <= MAX_UCLAMP {
            Some(SchedUtilClampControls { maximum: value, ..controls })
        } else {
            None
        },
        ClampControl::MinimumRtDefault => if value <= MAX_UCLAMP {
            Some(SchedUtilClampControls { minimum_rt_default: value, ..controls })
        } else {
            None
        },
    }
}

/// A committed policy generation: even, and not the empty ticket.
pub open spec fn is_committed(generation: u64) -> bool {
    generation != 0 && generation % 2 == 0
}

/// The generation that follows a committed one: zero is left out, because it is
/// the empty ticket in the worker handoff.
pub open spec fn next_generation(generation: u64) -> u64 {
    if generation == u64::MAX - 1 {
        2
    } else {
        (generation + 2) as u64
    }
}

/// Whether `candidate` follows `base` in the wrapping serial space.
pub open spec fn is_newer(candidate: u64, base: u64) -> bool {
    0 < (candidate - base) % 0x1_0000_0000_0000_0000 < 0x8000_0000_0000_0000
}

/// The pending ticket after `generation` was published to it.
pub open spec fn published(pending: u64, generation: u64) -> u64 {
    if pending != 0 && !is_newer(generation, pending) {
        pending
    } else {
        generation
    }
}

/// The generation that marks an update in progress.
pub fn uclamp_policy_write_generation(generation: u64) -> (in_progress: u64)
    requires
        is_committed(generation),
    ensures
        in_progress == generation + 1,
{
    generation + 1
}

/// The generation that an update commits.
pub fn uclamp_policy_commit_generation(in_progress: u64) -> (generation: u64)
    requires
        in_progress % 2 == 1,
    ensures
        generation == if in_progress == u64::MAX {
            2
        } else {
            in_progress + 1
        },
        is_committed(generation),
{
    if in_progress == u64::MAX {
        2
    } else {
        in_progress + 1
    }
}

/// Whether `candidate` follows `base` in the wrapping generation serial space.  No
/// more than half of it can be outstanding because updates are serialized, so the
/// modular comparison is unambiguous.
pub fn uclamp_generation_is_newer(candidate: u64, base: u64) -> (newer: bool)
    ensures
        newer == is_newer(candidate, base),
{
    candidate != base && candidate.wrapping_sub(base) < 0x8000_0000_0000_0000
}

/// Retain the newest pending policy: an older, late retry never replaces a newer
/// commit.
pub fn publish_uclamp_reconcile_pending_to(pending: &mut u64, generation: u64)
    ensures
        *final(pending) == published(*old(pending), generation),
{
    let observed: u64 = *pending;
    if observed != 0 && !uclamp_generation_is_newer(generation, observed) {
        return;
    }
    *pending = generation;
}

/// Claim the pending generation before doing any fallible work.  A publisher that
/// repeats the same generation after this finds no ticket and installs a fresh one,
/// so a worker pass never acknowledges work that arrived after its claim.
pub fn claim_uclamp_reconcile_pending(pending: &mut u64) -> (claimed: Option<u64>)
    ensures
        *final(pending) == 0,
        claimed == if *old(pending) == 0 {
            None
        } else {
            Some(*old(pending))
        },
{
    let generation: u64 = *pending;
    *pending = 0;
    if generation == 0 {
        None
    } else {
        Some(generation)
    }
}

/// The clamp policy of the system.
pub struct UclampPolicy {
    pub controls: SchedUtilClampControls,
    /// Even, except while an update is in progress.  A task records the generation
    /// for which its bounds were last published.
    pub generation: u64,
    /// The newest generation for which a task still needs its bounds retried, or
    /// zero.
    pub pending: u64,
}

impl UclampPolicy {
    /// The controls are in order, no update is in progress and a pending ticket is
    /// a committed generation.
    pub open spec fn wf(self) -> bool {
        &&& self.controls.wf()
        &&& is_committed(self.generation)
        &&& self.pending == 0 || is_committed(self.pending)
    }

    pub fn new() -> (policy: UclampPolicy)
        ensures
            policy.wf(),
            policy.controls == (SchedUtilClampControls {
                minimum: 0,
                maximum: 1024,
                minimum_rt_default: 1024,
            }),
            policy.generation == 2,
            policy.pending == 0,
    {
        UclampPolicy { controls: SchedUtilClampControls::unrestricted(), generation: 2, pending: 0 }
    }

    /// Mark an update as in progress.
    pub fn begin_uclamp_policy_update(&mut self)
        requires
            is_committed(old(self).generation),
        ensures
            *final(self) == (UclampPolicy {
                generation: (old(self).generation + 1) as u64,
                ..*old(self)
            }),
    {
        self.generation = uclamp_policy_write_generation(self.generation);
    }

    /// Commit the update in progress.
    pub fn finish_uclamp_policy_update(&mut self) -> (generation: u64)
        requires
            old(self).generation % 2 == 1,
        ensures
            generation == if old(self).generation == u64::MAX {
                2
            } else {
                old(self).generation + 1
            },
            *final(self) == (UclampPolicy { generation, ..*old(self) }),
    {
        let generation: u64 = uclamp_policy_commit_generation(self.generation);
        self.generation = generation;
        generation
    }

    /// Write one of the system-wide clamps, and give the generation it commits.
    pub fn set_sched_util_clamp(&mut self, which: ClampControl, value: u16) -> (result: Result<
        u64,
        Error,
    >)
        requires
            old(self).wf(),
        ensures
            final(self).wf(),
            match (controls_after(old(self).controls, which, value), result) {
                (Some(controls), Ok(generation)) => generation == next_generation(
                    old(self).generation,
                ) && *final(self) == (UclampPolicy { controls, generation, ..*old(self) }),
                (None, Err(error)) => error == Error::InvalidInput && *final(self) == *old(self),
                _ => false,
            },
    {
        let mut next: SchedUtilClampControls = self.controls;
        let written = match which {
            ClampControl::Minimum => next.set_minimum(value),
            ClampControl::Maximum => next.set_maximum(value),
            ClampControl::MinimumRtDefault => next.set_minimum_rt_default(value),
        };
        if let Err(error) = written {
            return Err(error);
        }
        self.begin_uclamp_policy_update();
        self.controls = next;
        Ok(self.finish_uclamp_policy_update())
    }
}

/// What the scheduler is told of a process's clamps.
#[derive(Clone, Copy, Debug, PartialEq, Eq, Structural)]
pub struct UclampConstraints {
    pub system_minimum: u16,
    pub system_maximum: u16,
    pub cgroup_minimum: u16,
    pub cgroup_maximum: u16,
    pub rt_default_minimum: u16,
}

/// The constraints of a process in the version-two directory `dir`, if it is in
/// one.
pub open spec fn constraints_in(
    controls: SchedUtilClampControls,
    ds: Seq<DirView>,
    dir: Option<int>,
) -> UclampConstraints {
    let clamp = match dir {
        Some(x) => effective_clamp(ds, x, (controls.minimum, controls.maximum)),
        None => (0, 1024),
    };
    UclampConstraints {
        system_minimum: controls.minimum,
        system_maximum: controls.maximum,
        cgroup_minimum: clamp.0,
        cgroup_maximum: clamp.1,
        rt_default_minimum: controls.minimum_rt_default,
    }
}

/// Snapshot every policy outside the scheduler that affects the clamp of a process
/// in `dir`.
pub fn uclamp_constraints(
    controls: SchedUtilClampControls,
    forest: &Forest,
    dir: Option<usize>,
) -> (constraints: UclampConstraints)
    requires
        forest.indexed(),
        dir is Some ==> dir->0 < forest@.len(),
    ensures
        constraints == constraints_in(
            controls,
            forest@,
            match dir {
                Some(x) => Some(x as int),
                None => None,
            },
        ),
{
    let clamp: (u16, u16) = match dir {
        Some(x) => forest.uclamp_effective(x, controls.minimum, controls.maximum),
        None => (0, 1024),
    };
    UclampConstraints {
        system_minimum: controls.minimum,
        system_maximum: controls.maximum,
        cgroup_minimum: clamp.0,
        cgroup_maximum: clamp.1,
        rt_default_minimum: controls.minimum_rt_default,
    }
}

/// The directory of the first version-two place from number `i` on.
pub open spec fn v2_place(hs: Seq<Hierarchy>, places: Seq<(usize, usize)>, i: nat) -> Option<int>
    decreases places.len() - i,
{
    if i >= places.len() {
        None
    } else if hs[places[i as int].0 as int].version == CgroupVersion::V2 {
        Some(places[i as int].1 as int)
    } else {
        v2_place(hs, places, i + 1)
    }
}

/// Snapshot the constraints selected by a fork admission.
///
/// A child cannot be looked up yet when this runs, but its directories have been
/// reserved.  Going by them closes the window in which it could first run.
pub fn uclamp_constraints_for_fork_admission(
    controls: SchedUtilClampControls,
    forest: &Forest,
    admission: &CgroupForkAdmission,
) -> (constraints: UclampConstraints)
    requires
        forest.indexed(),
        places_exist(*forest, admission.reservations@),
    ensures
        constraints == constraints_in(
            controls,
            forest@,
            v2_place(forest.hierarchies@, admission.reservations@, 0),
        ),
{
    let mut i: usize = 0;
    while i < admission.reservations.len()
        invariant
            i <= admission.reservations@.len(),
            forest.indexed(),
            places_exist(*forest, admission.reservations@),
            v2_place(forest.hierarchies@, admission.reservations@, 0) == v2_place(
                forest.hierarchies@,
                admission.reservations@,
                i as nat,
            ),
        decreases admission.reservations@.len() - i,
    {
        let (hierarchy, dir) = admission.reservations[i];
        assert(admission.reservations@[i as int].0 < forest.hierarchies@.len());
        if forest.hierarchies[hierarchy].version == CgroupVersion::V2 {
            return uclamp_constraints(controls, forest, Some(dir));
        }
        i = i + 1;
    }
    uclamp_constraints(controls, forest, None)
}

/// Why the scheduler refused a task's new bounds.
#[derive(Clone, Copy, Debug, PartialEq, Eq, Structural)]
pub enum TaskSchedError {
    Scheduler,
    RunQueueUnavailable(usize),
    Unsupported,
    TaskExited,
}

/// A refusal that is worth a retry.
#[derive(Clone, Copy, Debug, PartialEq, Eq, Structural)]
pub enum UclampReconcileFailure {
    Scheduler,
    RunQueueUnavailable,
    Unsupported,
}

/// The failure behind a refusal: only a task that has ended is not worth a retry.
pub open spec fn failure_of(error: TaskSchedError) -> Option<UclampReconcileFailure> {
    match error {
        TaskSchedError::Scheduler => Some(UclampReconcileFailure::Scheduler),
        TaskSchedError::RunQueueUnavailable(_) => Some(UclampReconcileFailure::RunQueueUnavailable),
        TaskSchedError::Unsupported => Some(UclampReconcileFailure::Unsupported),
        TaskSchedError::TaskExited => None,
    }
}

/// How grave a failure is.
pub open spec fn gravity(failure: UclampReconcileFailure) -> int {
    match failure {
        UclampReconcileFailure::Scheduler => 0,
        UclampReconcileFailure::RunQueueUnavailable => 1,
        UclampReconcileFailure::Unsupported => 2,
    }
}

/// The gravest of the failures of a pass.
pub open spec fn graver(
    retry: Option<UclampReconcileFailure>,
    kind: UclampReconcileFailure,
) -> UclampReconcileFailure {
    match retry {
        Some(earlier) => if gravity(earlier) >= gravity(kind) {
            earlier
        } else {
            kind
        },
        None => kind,
    }
}

impl UclampReconcileFailure {
    pub fn from_task_sched(error: TaskSchedError) -> (failure: Option<UclampReconcileFailure>)
        ensures
            failure == failure_of(error),
    {
        match error {
            TaskSchedError::Scheduler => Some(UclampReconcileFailure::Scheduler),
            TaskSchedError::RunQueueUnavailable(_) => Some(
                UclampReconcileFailure::RunQueueUnavailable,
            ),
            TaskSchedError::Unsupported => Some(UclampReconcileFailure::Unsupported),
            TaskSchedError::TaskExited => None,
        }
    }
}

/// What a pass does with one task's outcome: the failure the pass reports so far,
/// the pending ticket, and whether the task's bounds count as those of the
/// snapshot's generation.
pub open spec fn task_republished(
    policy: UclampPolicy,
    outcome: Result<(), TaskSchedError>,
    snapshot: u64,
    expected: u64,
    retry: Option<UclampReconcileFailure>,
) -> (Option<UclampReconcileFailure>, u64, bool) {
    match outcome {
        Ok(()) => if snapshot == expected && policy.generation == snapshot {
            (retry, policy.pending, true)
        } else {
            (retry, published(policy.pending, snapshot), false)
        },
        Err(error) => match failure_of(error) {
            Some(kind) => (
                Some(graver(retry, kind)),
                published(policy.pending, snapshot),
                false,
            ),
            None => (retry, policy.pending, false),
        },
    }
}

/// What a worker pass came to.
#[derive(Clone, Copy, Debug, PartialEq, Eq, Structural)]
pub enum UclampReconcileDrain {
    Idle,
    Converged,
    Retry(UclampReconcileFailure),
}

/// What a pass that claimed `claimed` and met `failure` came to, where `next` is
/// pending after it.
pub open spec fn drained(
    claimed: u64,
    failure: Option<UclampReconcileFailure>,
    next: u64,
) -> UclampReconcileDrain {
    if next != 0 && is_newer(next, claimed) {
        UclampReconcileDrain::Converged
    } else {
        match failure {
            Some(failure) => UclampReconcileDrain::Retry(failure),
            None => if next == 0 {
                UclampReconcileDrain::Converged
            } else {
                UclampReconcileDrain::Retry(UclampReconcileFailure::Scheduler)
            },
        }
    }
}

impl UclampPolicy {
    /// Take note of the outcome of one task's transaction, which went by the policy
    /// of generation `snapshot`, in a pass for generation `expected`.  The result
    /// is the failure that the pass reports so far, and whether the task may record
    /// the snapshot's generation.
    ///
    /// A task that ends does not undo a committed change.  Every other failure is
    /// handed to the policy worker, and so is a task that a newer policy overtook.
    pub fn republish_task(
        &mut self,
        outcome: Result<(), TaskSchedError>,
        snapshot: u64,
        expected: u64,
        retry: Option<UclampReconcileFailure>,
    ) -> (result: (Option<UclampReconcileFailure>, bool))
        ensures
            ({
                let after = task_republished(*old(self), outcome, snapshot, expected, retry);
                result == (after.0, after.2) && *final(self) == (UclampPolicy {
                    pending: after.1,
                    ..*old(self)
                })
            }),
            old(self).wf() && is_committed(snapshot) ==> final(self).wf(),
    {
        match outcome {
            Ok(()) => {
                if snapshot == expected && self.generation == snapshot {
                    (retry, true)
                } else {
                    publish_uclamp_reconcile_pending_to(&mut self.pending, snapshot);
                    (retry, false)
                }
            },
            Err(error) => match UclampReconcileFailure::from_task_sched(error) {
                Some(kind) => {
                    publish_uclamp_reconcile_pending_to(&mut self.pending, snapshot);
                    let worst: UclampReconcileFailure = match (retry, kind) {
                        (
                            Some(UclampReconcileFailure::Unsupported),
                            _,
                        ) => UclampReconcileFailure::Unsupported,
                        (
                            Some(UclampReconcileFailure::RunQueueUnavailable),
                            UclampReconcileFailure::Scheduler,
                        ) => UclampReconcileFailure::RunQueueUnavailable,
                        _ => kind,
                    };
                    (Some(worst), false)
                },
                None => (retry, false),
            },
        }
    }

    /// What a worker pass came to that claimed `claimed` and met `failure`.
    pub fn drain_outcome(&self, claimed: u64, failure: Option<UclampReconcileFailure>) -> (drain:
        UclampReconcileDrain)
        ensures
            drain == drained(claimed, failure, self.pending),
    {
        let next: u64 = self.pending;
        if next != 0 && uclamp_generation_is_newer(next, claimed) {
            return UclampReconcileDrain::Converged;
        }
        match failure {
            Some(failure) => UclampReconcileDrain::Retry(failure),
            None => {
                if next == 0 {
                    UclampReconcileDrain::Converged
                } else {
                    UclampReconcileDrain::Retry(UclampReconcileFailure::Scheduler)
                }
            },
        }
    }

    /// Put a claimed generation back whose pass could not start.
    pub fn drain_failed(&mut self, claimed: u64) -> (drain: UclampReconcileDrain)
        ensures
            drain == UclampReconcileDrain::Retry(UclampReconcileFailure::Scheduler),
            *final(self) == (UclampPolicy {
                pending: published(old(self).pending, claimed),
                ..*old(self)
            }),
    {
        publish_uclamp_reconcile_pending_to(&mut self.pending, claimed);
        UclampReconcileDrain::Retry(UclampReconcileFailure::Scheduler)
    }

    /// Take note of the outcome of the current task's retry before it returns to
    /// user mode, and say whether the task may record the snapshot's generation.
    pub fn reconcile_current(&mut self, outcome: Result<(), TaskSchedError>, snapshot: u64) -> (record:
        bool)
        ensures
            ({
                let after = task_republished(*old(self), outcome, snapshot, snapshot, None);
                record == after.2 && *final(self) == (UclampPolicy {
                    pending: after.1,
                    ..*old(self)
                })
            }),
    {
        let (_, record) = self.republish_task(outcome, snapshot, snapshot, None);
        record
    }
}

/// A committed generation follows the one before it, also where the numbers wrap,
/// and is never the empty ticket.
pub proof fn law_generations_advance(generation: u64)
    requires
        is_committed(generation),
    ensures
        is_committed(next_generation(generation)),
        is_newer(next_generation(generation), generation),
        !is_newer(generation, next_generation(generation)),
{
}

/// Of two generations at most one is newer than the other.
pub proof fn law_newer_is_one_way(a: u64, b: u64)
    requires
        is_newer(a, b),
    ensures
        !is_newer(b, a),
{
}

/// A published generation is pending afterwards, or one that it is not newer than.
pub proof fn law_publishing_never_loses_a_newer_ticket(pending: u64, generation: u64)
    requires
        generation != 0,
    ensures
        published(pending, generation) != 0,
        published(pending, generation) == generation || !is_newer(
            generation,
            published(pending, generation),
        ),
        pending != 0 && is_newer(pending, generation) ==> published(pending, generation) == pending,
{
}

proof fn narrowed_on_the_way(
    ds: Seq<DirView>,
    x: int,
    steps: nat,
    bounds: (u16, u16),
    a: int,
)
    ensures
        narrowed(ds, x, steps, bounds).0 >= bounds.0,
        narrowed(ds, x, steps, bounds).1 <= bounds.1,
        chain(ds, x, steps).contains(a) ==> narrowed(ds, x, steps, bounds).0 >= ds[a].uclamp.0
            && narrowed(ds, x, steps, bounds).1 <= ds[a].uclamp.1,
    decreases steps,
{
    if steps > 0 {
        let here = (max16(bounds.0, ds[x].uclamp.0), min16(bounds.1, ds[x].uclamp.1));
        if let Some(p) = parent_of(ds, x) {
            narrowed_on_the_way(ds, p, (steps - 1) as nat, here, a);
            if chain(ds, x, steps).contains(a) && a != x {
                let walk = chain(ds, x, steps);
                let i = choose|i: int| 0 <= i < walk.len() && walk[i] == a;
                assert(chain(ds, p, (steps - 1) as nat)[i - 1] == a);
            }
        }
    }
}

/// A clamp that applies is ordered, and lies within the system's bounds and those of
/// every directory on the way up: the limits of a directory only narrow.
pub proof fn law_clamps_only_narrow(ds: Seq<DirView>, x: int, bounds: (u16, u16), a: int)
    requires
        chain(ds, x, 257).contains(a),
    ensures
        ({
            let clamp = effective_clamp(ds, x, bounds);
            &&& clamp.0 <= clamp.1
            &&& clamp.1 <= bounds.1 && clamp.1 <= ds[a].uclamp.1
            &&& clamp.0 >= min16(bounds.0, clamp.1) && clamp.0 >= min16(ds[a].uclamp.0, clamp.1)
        }),
{
    narrowed_on_the_way(ds, x, 257, bounds, a);
}

} // verus!
