//! What limits, freezes and clamps mean for everything below the directory that has them.

use vstd::prelude::*;
use crate::cgroup::admission::{fork_outcome, fork_refusal, hidden};
use crate::cgroup::agreement::{limiting_is_there, places_fit};
use crate::cgroup::forest::{admitted, admitted_among, below, effective_clamp, ends, frozen_above,
    limiting, narrowed, parent_of, pids_active, reaches, updated, version, CgroupVersion, DirView,
    Forest, Hierarchy, MetadataUpdate, NodeMetadata};
use crate::cgroup::laws::hidden_at;
use crate::cgroup::peaks::{alike, found_in_the_hierarchy, one_member_more, parented, same_below};
use crate::cgroup::registry::{attach_outcome, attach_refused, charged, Index};
use crate::error::Error;

verus! {

/// Whether `x` is `a` or is found below it, at whatever depth.
pub open spec fn within(ds: Seq<DirView>, x: int, a: int) -> bool {
    exists|steps: nat| #[trigger] below(ds, x, a, steps)
}

/// The entries of the first `n` directories, counted over those that are `a` or below it.
pub open spec fn entries_within(ds: Seq<DirView>, a: int, n: nat) -> nat
    decreases n,
{
    if n == 0 {
        0
    } else if within(ds, n - 1, a) {
        entries_within(ds, a, (n - 1) as nat) + ds[n - 1].pids.dom().len()
    } else {
        entries_within(ds, a, (n - 1) as nat)
    }
}

/// A directory is below another if its parent's table leads to it and the parent is.
pub proof fn law_what_a_table_names_is_below(forest: Forest, p: int, name: Seq<u8>, a: int)
    requires
        forest.wf(),
        0 <= p < forest@.len(),
        forest@[p].children.contains_key(name),
        within(forest@, p, a),
    ensures
        within(forest@, forest@[p].children[name] as int, a),
        within(forest@, a, a),
{
    let ds = forest@;
    let steps = choose|steps: nat| #[trigger] below(ds, p, a, steps);
    let c = ds[p].children[name] as int;
    assert(forest.dirs@.len() == forest.dirs.len());
    assert(ds[p].children.contains_key(name));
    assert(ds[c].linked && ds[c].parent == Some(p as usize) && ds[p].live);
    assert(parent_of(ds, c) == Some(p));
    assert(below(ds, c, a, steps + 1));
    assert(below(ds, a, a, 1));
}

proof fn within_is_below(forest: Forest, x: int, a: int)
    requires
        forest.bounded(),
        0 <= x < forest@.len(),
    ensures
        within(forest@, x, a) == below(forest@, x, a, 257),
{
    if within(forest@, x, a) {
        let steps = choose|steps: nat| #[trigger] below(forest@, x, a, steps);
        assert(below(forest@, x, a, 257));
    }
}

proof fn admitted_is_entries(forest: Forest, a: int, n: nat)
    requires
        forest.bounded(),
        n <= forest@.len(),
    ensures
        admitted_among(forest@, a, n) == entries_within(forest@, a, n),
    decreases n,
{
    if n > 0 {
        admitted_is_entries(forest, a, (n - 1) as nat);
        within_is_below(forest, n - 1, a);
    }
}

/// What is counted of a directory is every entry, visible or not, of the directory and of all that
/// is found below it.
pub proof fn law_a_count_is_of_everything_below(forest: Forest, a: int)
    requires
        forest.wf(),
    ensures
        admitted(forest@, a) == entries_within(forest@, a, forest@.len()),
{
    admitted_is_entries(forest, a, forest@.len());
}

proof fn no_limit_on_the_way(hs: Seq<Hierarchy>, ds: Seq<DirView>, x: int, a: int, steps: nat)
    requires
        limiting(hs, ds, x, steps) is None,
        reaches(ds, x, a, steps),
    ensures
        pids_active(hs, ds, a) && ds[a].pids_max is Some ==> admitted(ds, a) + 1
            <= ds[a].pids_max->0,
    decreases steps,
{
    if x != a {
        if let Some(p) = parent_of(ds, x) {
            no_limit_on_the_way(hs, ds, p, a, (steps - 1) as nat);
        }
    }
}

proof fn every_place_has_room(
    hs: Seq<Hierarchy>,
    ds: Seq<DirView>,
    places: Seq<(usize, usize)>,
    i: nat,
    j: int,
)
    requires
        fork_refusal(hs, ds, places, i) is None,
        i <= j < places.len(),
    ensures
        limiting(hs, ds, places[j].1 as int, ds.len()) is None,
        !attach_refused(hs, ds, places[j].1 as int, true),
    decreases places.len() - i,
{
    if i < j {
        every_place_has_room(hs, ds, places, i + 1, j);
    }
}

proof fn entries_follow(ds: Seq<DirView>, later: Seq<DirView>, a: int, t: int, n: nat)
    requires
        alike(ds, later),
        parented(ds),
        n <= ds.len(),
        forall|y: int|
            #![trigger ds[y]]
            0 <= y < n && within(ds, y, a) ==> later[y].pids.dom().len() <= ds[y].pids.dom().len()
                + (if y == t {
                1nat
            } else {
                0nat
            }),
    ensures
        entries_within(later, a, n) <= entries_within(ds, a, n) + (if 0 <= t < n {
            1nat
        } else {
            0nat
        }),
    decreases n,
{
    if n > 0 {
        entries_follow(ds, later, a, t, (n - 1) as nat);
        let y = n - 1;
        assert(within(ds, y, a) == within(later, y, a)) by {
            if within(ds, y, a) {
                let steps = choose|steps: nat| #[trigger] below(ds, y, a, steps);
                same_below(ds, later, y, a, steps);
                assert(below(later, y, a, steps));
            }
            if within(later, y, a) {
                let steps = choose|steps: nat| #[trigger] below(later, y, a, steps);
                same_below(ds, later, y, a, steps);
                assert(below(ds, y, a, steps));
            }
        }
        assert(ds[y] == ds[y]);
    }
}

/// A fork that is admitted exceeds no limit: once the child has its places, every directory on the
/// walk up from one of them, whose members are limited, has at most as many entries in itself and
/// in everything below it as its limit says.
pub proof fn law_an_admitted_fork_exceeds_no_limit(
    forest: Forest,
    index: Index,
    global_limit: usize,
    per_cgroup_limit: usize,
    places: Seq<(usize, usize)>,
    child: u64,
    publication: usize,
    i: int,
    a: int,
)
    requires
        forest.wf(),
        places_fit(forest@, places),
        0 <= i < places.len(),
        0 <= a < forest@.len(),
        reaches(forest@, places[i].1 as int, a, forest@.len()),
        pids_active(forest.hierarchies@, forest@, a),
        forest@[a].pids_max is Some,
        fork_outcome(
            index,
            global_limit,
            per_cgroup_limit,
            forest.hierarchies@,
            forest@,
            places,
            child,
        ) is None,
    ensures
        entries_within(
            hidden(forest@, places, child, publication, places.len()),
            a,
            forest@.len(),
        ) <= forest@[a].pids_max->0,
{
    let hs = forest.hierarchies@;
    let ds = forest@;
    let after = hidden(ds, places, child, publication, places.len());
    every_place_has_room(hs, ds, places, 0, i);
    no_limit_on_the_way(hs, ds, places[i].1 as int, a, ds.len());
    law_a_count_is_of_everything_below(forest, a);
    hidden_at(ds, places, child, publication, places.len(), a);
    let t: int = if exists|j: int| 0 <= j < places.len() && (#[trigger] places[j]).0 == ds[a].hierarchy {
        places[choose|j: int|
            0 <= j < places.len() && (#[trigger] places[j]).0 == ds[a].hierarchy].1 as int
    } else {
        -1
    };
    assert(alike(ds, after)) by {
        assert forall|x: int| #![trigger after[x]] 0 <= x < ds.len() implies ds[x].parent
            == after[x].parent && ds[x].live == after[x].live && ds[x].linked == after[x].linked
            && ds[x].hierarchy == after[x].hierarchy && ds[x].subtree_pids
            == after[x].subtree_pids by {
            hidden_at(ds, places, child, publication, places.len(), x);
        }
    }
    assert forall|y: int| #![trigger ds[y]] 0 <= y < ds.len() && within(ds, y, a) implies after[y].pids.dom().len()
        <= ds[y].pids.dom().len() + (if y == t {
        1nat
    } else {
        0nat
    }) by {
        hidden_at(ds, places, child, publication, places.len(), y);
        if exists|j: int| 0 <= j < places.len() && (#[trigger] places[j]).1 == y {
            let j = choose|j: int| 0 <= j < places.len() && (#[trigger] places[j]).1 == y;
            let steps = choose|steps: nat| #[trigger] below(ds, y, a, steps);
            found_in_the_hierarchy(forest, y, a, steps);
            assert(places[j].0 == ds[a].hierarchy);
            let k = choose|k: int|
                0 <= k < places.len() && (#[trigger] places[k]).0 == ds[a].hierarchy;
            assert(places[k].0 == places[j].0);
            assert(k == j) by {
                if k < j {
                    assert(places[k].0 != places[j].0);
                } else if j < k {
                    assert(places[j].0 != places[k].0);
                }
            }
            one_member_more(after[y].pids.dom(), ds[y].pids.dom(), child);
        }
    }
    entries_follow(ds, after, a, t, ds.len());
}

/// A process that is moved as if it were forked is let in only where every limited directory on the
/// walk up has room for one entry more, counted over everything below it.
pub proof fn law_a_charged_attach_exceeds_no_limit(
    forest: Forest,
    index: Index,
    bits: Seq<bool>,
    global_limit: usize,
    per_cgroup_limit: usize,
    target: usize,
    pid: u64,
    a: int,
)
    requires
        forest.wf(),
        target < forest@.len(),
        reaches(forest@, target as int, a, forest@.len()),
        pids_active(forest.hierarchies@, forest@, a),
        forest@[a].pids_max is Some,
        attach_outcome(
            index,
            bits,
            global_limit,
            per_cgroup_limit,
            forest.hierarchies@,
            forest@,
            target,
            pid,
            true,
        ) == Ok::<bool, Error>(true),
    ensures
        entries_within(forest@, a, forest@.len()) + 1 <= forest@[a].pids_max->0,
{
    let hs = forest.hierarchies@;
    let ds = forest@;
    assert(limiting(hs, ds, target as int, ds.len()) is None);
    no_limit_on_the_way(hs, ds, target as int, a, ds.len());
    law_a_count_is_of_everything_below(forest, a);
}

/// A fork is held up by a limit only where there is one: some directory on the walk up from the
/// place, whose members are limited, has no room for one entry more among all that is below it.
/// That directory counts the refusal, once, and nothing else changes.
pub proof fn law_a_held_up_fork_met_a_limit(forest: Forest, target: int)
    requires
        forest.wf(),
        0 <= target < forest@.len(),
        limiting(forest.hierarchies@, forest@, target, forest@.len()) is Some,
    ensures
        ({
            let hs = forest.hierarchies@;
            let ds = forest@;
            let full = limiting(hs, ds, target, ds.len())->0;
            let after = charged(hs, ds, target);
            &&& 0 <= full < ds.len()
            &&& reaches(ds, target, full, ds.len())
            &&& pids_active(hs, ds, full)
            &&& ds[full].pids_max is Some
            &&& entries_within(ds, full, ds.len()) + 1 > ds[full].pids_max->0
            &&& after.len() == ds.len()
            &&& ds[full].pids_events_limit < u64::MAX ==> after[full].pids_events_limit
                == ds[full].pids_events_limit + 1
            &&& after[full].pids == ds[full].pids && after[full].pids_max == ds[full].pids_max
            &&& forall|x: int| 0 <= x < ds.len() && x != full ==> #[trigger] after[x] == ds[x]
        }),
{
    let hs = forest.hierarchies@;
    let ds = forest@;
    limiting_is_there(hs, ds, target, ds.len());
    limit_is_on_the_way(hs, ds, target, ds.len());
    law_a_count_is_of_everything_below(forest, limiting(hs, ds, target, ds.len())->0);
}

proof fn limit_is_on_the_way(hs: Seq<Hierarchy>, ds: Seq<DirView>, x: int, steps: nat)
    requires
        limiting(hs, ds, x, steps) is Some,
    ensures
        ({
            let full = limiting(hs, ds, x, steps)->0;
            &&& reaches(ds, x, full, steps)
            &&& pids_active(hs, ds, full)
            &&& ds[full].pids_max is Some
            &&& admitted(ds, full) + 1 > ds[full].pids_max->0
        }),
    decreases steps,
{
    if !(pids_active(hs, ds, x) && ds[x].pids_max is Some && admitted(ds, x) + 1
        > ds[x].pids_max->0) {
        if let Some(p) = parent_of(ds, x) {
            limit_is_on_the_way(hs, ds, p, (steps - 1) as nat);
        }
    }
}

/// The members of a version-one directory are limited where its hierarchy has the controller; those
/// of a version-two directory where its parent hands the controller down, so never those of a root.
pub proof fn law_who_is_limited(hs: Seq<Hierarchy>, ds: Seq<DirView>, x: int)
    ensures
        version(hs, ds, x) == CgroupVersion::V2 ==> (pids_active(hs, ds, x) <==> ds[x].parent is Some
            && ds[(ds[x].parent->0) as int].live && ds[(ds[x].parent->0) as int].subtree_pids),
        version(hs, ds, x) == CgroupVersion::V1 ==> (pids_active(hs, ds, x) <==> exists|i: int|
            0 <= i < hs[ds[x].hierarchy as int].controllers@.len() && (
            #[trigger] hs[ds[x].hierarchy as int].controllers@[i])@ == "pids"@),
{
}

/// A freeze holds for everything below: a fork into a version-two directory is refused if any
/// directory on the walk up from it is frozen, and not for a freeze if none is.
pub proof fn law_a_freeze_holds_for_everything_below(
    hs: Seq<Hierarchy>,
    ds: Seq<DirView>,
    x: int,
    a: int,
)
    requires
        version(hs, ds, x) == CgroupVersion::V2,
    ensures
        reaches(ds, x, a, 256) && ds[a].frozen ==> attach_refused(hs, ds, x, true),
        ends(ds, x, 256) && (forall|b: int| #[trigger] reaches(ds, x, b, 256) ==> !ds[b].frozen)
            ==> !frozen_above(ds, x, 256),
{
    if reaches(ds, x, a, 256) && ds[a].frozen {
        freeze_is_met(ds, x, a, 256);
    }
    if ends(ds, x, 256) && frozen_above(ds, x, 256) {
        let b = freeze_has_a_source(ds, x, 256);
        assert(reaches(ds, x, b, 256));
    }
}

proof fn freeze_is_met(ds: Seq<DirView>, x: int, a: int, steps: nat)
    requires
        reaches(ds, x, a, steps),
        ds[a].frozen,
    ensures
        frozen_above(ds, x, steps),
    decreases steps,
{
    if x != a {
        if let Some(p) = parent_of(ds, x) {
            freeze_is_met(ds, p, a, (steps - 1) as nat);
        }
    }
}

proof fn freeze_has_a_source(ds: Seq<DirView>, x: int, steps: nat) -> (b: int)
    requires
        ends(ds, x, steps),
        frozen_above(ds, x, steps),
    ensures
        reaches(ds, x, b, steps),
        ds[b].frozen,
    decreases steps,
{
    if ds[x].frozen {
        x
    } else {
        freeze_has_a_source(ds, parent_of(ds, x)->0, (steps - 1) as nat)
    }
}

/// The clamp of a directory is the tightest of the walk up: its upper bound is at most that of every
/// directory on the way and of the system, and is one of them; its lower bound is at least each
/// lower bound on the way, unless the upper bound is lower still.
pub proof fn law_the_clamp_is_the_tightest_on_the_way(
    ds: Seq<DirView>,
    x: int,
    bounds: (u16, u16),
    a: int,
)
    requires
        reaches(ds, x, a, 257),
    ensures
        ({
            let clamp = effective_clamp(ds, x, bounds);
            &&& clamp.0 <= clamp.1
            &&& clamp.1 <= bounds.1 && clamp.1 <= ds[a].uclamp.1
            &&& clamp.0 < clamp.1 ==> clamp.0 >= bounds.0 && clamp.0 >= ds[a].uclamp.0
            &&& clamp.1 == bounds.1 || exists|b: int| #[trigger]
                reaches(ds, x, b, 257) && clamp.1 == ds[b].uclamp.1
            &&& clamp.0 == clamp.1 || clamp.0 == bounds.0 || exists|b: int| #[trigger]
                reaches(ds, x, b, 257) && clamp.0 == ds[b].uclamp.0
        }),
{
    narrowed_by_all(ds, x, 257, bounds, a);
    narrowed_by_some(ds, x, 257, bounds);
}

proof fn narrowed_by_all(ds: Seq<DirView>, x: int, steps: nat, bounds: (u16, u16), a: int)
    requires
        reaches(ds, x, a, steps),
    ensures
        ({
            let all = narrowed(ds, x, steps, bounds);
            &&& all.0 >= bounds.0 && all.1 <= bounds.1
            &&& all.0 >= ds[a].uclamp.0 && all.1 <= ds[a].uclamp.1
        }),
    decreases steps,
{
    let here = (
        if bounds.0 >= ds[x].uclamp.0 {
            bounds.0
        } else {
            ds[x].uclamp.0
        },
        if bounds.1 <= ds[x].uclamp.1 {
            bounds.1
        } else {
            ds[x].uclamp.1
        },
    );
    if let Some(p) = parent_of(ds, x) {
        if x != a {
            narrowed_by_all(ds, p, (steps - 1) as nat, here, a);
        } else {
            narrowing_only_narrows(ds, p, (steps - 1) as nat, here);
        }
    }
}

proof fn narrowing_only_narrows(ds: Seq<DirView>, x: int, steps: nat, bounds: (u16, u16))
    ensures
        narrowed(ds, x, steps, bounds).0 >= bounds.0,
        narrowed(ds, x, steps, bounds).1 <= bounds.1,
    decreases steps,
{
    if steps > 0 {
        let here = (
            if bounds.0 >= ds[x].uclamp.0 {
                bounds.0
            } else {
                ds[x].uclamp.0
            },
            if bounds.1 <= ds[x].uclamp.1 {
                bounds.1
            } else {
                ds[x].uclamp.1
            },
        );
        if let Some(p) = parent_of(ds, x) {
            narrowing_only_narrows(ds, p, (steps - 1) as nat, here);
        }
    }
}

proof fn narrowed_by_some(ds: Seq<DirView>, x: int, steps: nat, bounds: (u16, u16))
    ensures
        ({
            let all = narrowed(ds, x, steps, bounds);
            &&& all.1 == bounds.1 || exists|b: int| #[trigger]
                reaches(ds, x, b, steps) && all.1 == ds[b].uclamp.1
            &&& all.0 == bounds.0 || exists|b: int| #[trigger]
                reaches(ds, x, b, steps) && all.0 == ds[b].uclamp.0
        }),
    decreases steps,
{
    if steps > 0 {
        let all = narrowed(ds, x, steps, bounds);
        let here = (
            if bounds.0 >= ds[x].uclamp.0 {
                bounds.0
            } else {
                ds[x].uclamp.0
            },
            if bounds.1 <= ds[x].uclamp.1 {
                bounds.1
            } else {
                ds[x].uclamp.1
            },
        );
        assert(reaches(ds, x, x, steps));
        if let Some(p) = parent_of(ds, x) {
            narrowed_by_some(ds, p, (steps - 1) as nat, here);
            if all.1 != here.1 {
                let b = choose|b: int| #[trigger]
                    reaches(ds, p, b, (steps - 1) as nat) && all.1 == ds[b].uclamp.1;
                assert(reaches(ds, x, b, steps));
            }
            if all.0 != here.0 {
                let b = choose|b: int| #[trigger]
                    reaches(ds, p, b, (steps - 1) as nat) && all.0 == ds[b].uclamp.0;
                assert(reaches(ds, x, b, steps));
            }
        }
    }
}

/// A change of attributes changes what it names and nothing else.  The status time is the one that
/// the change names; where it names none, it is the present if anything but the access time was
/// named, and stays otherwise.
pub proof fn law_a_change_changes_what_it_names(m: NodeMetadata, u: MetadataUpdate, now: u64)
    ensures
        ({
            let new = updated(m, u, now);
            &&& u.mode is None ==> new.mode == m.mode
            &&& u.mode is Some ==> new.mode == u.mode->0
            &&& u.owner is None ==> new.uid == m.uid && new.gid == m.gid
            &&& u.owner is Some ==> new.uid == (u.owner->0).0 && new.gid == (u.owner->0).1
            &&& u.rdev is None ==> new.rdev == m.rdev
            &&& u.rdev is Some ==> new.rdev == u.rdev->0
            &&& u.atime is None ==> new.atime == m.atime
            &&& u.atime is Some ==> new.atime == u.atime->0
            &&& u.mtime is None ==> new.mtime == m.mtime
            &&& u.mtime is Some ==> new.mtime == u.mtime->0
            &&& u.ctime is Some ==> new.ctime == u.ctime->0
            &&& u.ctime is None && new.mode == m.mode && new.uid == m.uid && new.gid == m.gid
                && new.rdev == m.rdev && new.mtime == m.mtime ==> new.ctime == m.ctime || new.ctime
                == now
            &&& u.ctime is None && (new.mode != m.mode || new.uid != m.uid || new.gid != m.gid
                || new.rdev != m.rdev || new.mtime != m.mtime) ==> new.ctime == now
            &&& u.ctime is None && u.mode is None && u.owner is None && u.rdev is None && u.mtime
                is None ==> new.ctime == m.ctime
        }),
{
}

} // verus!
