//! A peak never lags behind the members that can be seen.

use vstd::prelude::*;
use vstd::set_lib::{lemma_int_range, lemma_len_subset, set_int_range};
use crate::cgroup::admission::{pending_peaks, CgroupForkAdmission};
use crate::cgroup::agreement::{agree, limiting_is_there, still_held};
use crate::cgroup::forest::{below, chain, ends, parent_of, pids_active, DirView, Forest,
    Hierarchy};
use crate::cgroup::laws::law_a_walk_meets_no_directory_twice;
use crate::cgroup::lookup::bound;
use crate::cgroup::namespace::Entry;
use crate::cgroup::registry::{accepts, attach_effect, attach_outcome, is_current, live_among,
    live_count, live_members, moved, peaked, purged, Index, PidMembershipRegistry,
    RegistryValidation};
use crate::cgroup::rename::{rename_outcome, renamed};
use crate::error::Error;

verus! {

/// Whether no peak lags behind the members that can be seen now, in the directories
/// that count them.
pub open spec fn covered(
    index: Index,
    bits: Seq<bool>,
    validation: RegistryValidation,
    hs: Seq<Hierarchy>,
    ds: Seq<DirView>,
) -> bool {
    forall|x: int|
        #![trigger ds[x]]
        0 <= x < ds.len() && ds[x].live && pids_active(hs, ds, x) ==> live_count(
            index,
            bits,
            hs.len(),
            validation,
            ds,
            x,
        ) <= ds[x].pids_peak
}

/// Whether every count fits the word that a peak is kept in.
pub open spec fn countable(
    index: Index,
    bits: Seq<bool>,
    validation: RegistryValidation,
    hs: Seq<Hierarchy>,
    ds: Seq<DirView>,
) -> bool {
    forall|x: int|
        #![trigger ds[x]]
        0 <= x < ds.len() ==> live_count(index, bits, hs.len(), validation, ds, x) <= u64::MAX
}

/// Whether two states of the directories have the same shape.
pub open spec fn alike(a: Seq<DirView>, b: Seq<DirView>) -> bool {
    &&& a.len() == b.len()
    &&& forall|x: int|
        #![trigger a[x]]
        #![trigger b[x]]
        0 <= x < a.len() ==> a[x].parent == b[x].parent && a[x].live == b[x].live && a[x].linked
            == b[x].linked && a[x].hierarchy == b[x].hierarchy && a[x].subtree_pids
            == b[x].subtree_pids
}

/// Whether every parent is one of the directories.
pub open spec fn parented(ds: Seq<DirView>) -> bool {
    forall|y: int|
        #![trigger ds[y]]
        0 <= y < ds.len() ==> (ds[y].parent matches Some(p) ==> p < ds.len())
}

pub(crate) proof fn same_parent(a: Seq<DirView>, b: Seq<DirView>, x: int)
    requires
        alike(a, b),
        parented(a),
        0 <= x < a.len(),
    ensures
        parent_of(a, x) == parent_of(b, x),
        parent_of(a, x) matches Some(p) ==> 0 <= p < a.len(),
{
    assert(a[x].parent == b[x].parent);
    if let Some(p) = a[x].parent {
        assert(a[p as int].live == b[p as int].live);
    }
}

pub(crate) proof fn same_below(a: Seq<DirView>, b: Seq<DirView>, x: int, d: int, k: nat)
    requires
        alike(a, b),
        parented(a),
        0 <= x < a.len(),
    ensures
        below(a, x, d, k) == below(b, x, d, k),
    decreases k,
{
    if k > 0 {
        same_parent(a, b, x);
        assert(a[x].linked == b[x].linked);
        if let Some(p) = parent_of(a, x) {
            same_below(a, b, p, d, (k - 1) as nat);
        }
    }
}

proof fn same_chain(a: Seq<DirView>, b: Seq<DirView>, x: int, k: nat)
    requires
        alike(a, b),
        parented(a),
        0 <= x < a.len(),
    ensures
        chain(a, x, k) == chain(b, x, k),
    decreases k,
{
    if k > 0 {
        same_parent(a, b, x);
        if let Some(p) = parent_of(a, x) {
            same_chain(a, b, p, (k - 1) as nat);
        }
    }
}

proof fn same_activity(hs: Seq<Hierarchy>, a: Seq<DirView>, b: Seq<DirView>, x: int)
    requires
        alike(a, b),
        parented(a),
        0 <= x < a.len(),
    ensures
        pids_active(hs, a, x) == pids_active(hs, b, x),
{
    same_parent(a, b, x);
    assert(a[x].hierarchy == b[x].hierarchy);
    if let Some(p) = parent_of(a, x) {
        assert(a[p].subtree_pids == b[p].subtree_pids);
    }
}

/// What is found below a directory has it on its way up.
proof fn found_on_the_way(ds: Seq<DirView>, x: int, d: int, k: nat, n: nat)
    requires
        below(ds, x, d, k),
        ends(ds, x, n),
    ensures
        chain(ds, x, n).contains(d),
    decreases k,
{
    if x == d {
        assert(chain(ds, x, n)[0] == d);
    } else if let Some(p) = parent_of(ds, x) {
        found_on_the_way(ds, p, d, (k - 1) as nat, (n - 1) as nat);
        let rest = chain(ds, p, (n - 1) as nat);
        let i = choose|i: int| 0 <= i < rest.len() && rest[i] == d;
        assert(chain(ds, x, n)[i + 1] == d);
    }
}

/// What is found below a directory is of its hierarchy.
pub(crate) proof fn found_in_the_hierarchy(forest: Forest, x: int, d: int, k: nat)
    requires
        forest.wf(),
        0 <= x < forest@.len(),
        below(forest@, x, d, k),
    ensures
        forest@[x].hierarchy == forest@[d].hierarchy,
        x != d ==> forest@[x].live,
    decreases k,
{
    let ds = forest@;
    if x != d {
        if let Some(p) = parent_of(ds, x) {
            assert(ds[x].linked);
            assert(ds[p].children.contains_key(ds[x].name));
            found_in_the_hierarchy(forest, p, d, (k - 1) as nat);
        }
    }
}

pub(crate) proof fn numbers_are_finite(s: Set<u64>)
    ensures
        s.finite(),
{
    let all = set_int_range(0, 0x1_0000_0000_0000_0000);
    lemma_int_range(0, 0x1_0000_0000_0000_0000);
    let f = |i: int| i as u64;
    all.lemma_map_finite(f);
    assert(s.subset_of(all.map(f))) by {
        assert forall|x: u64| s.contains(x) implies all.map(f).contains(x) by {
            assert(all.contains(x as int));
            assert(f(x as int) == x);
        }
    }
    vstd::set_lib::lemma_set_subset_finite(all.map(f), s);
}

/// Counts follow the members of what is below; `t` is a directory that may have one more.
proof fn counts_follow(
    index: Index,
    bits: Seq<bool>,
    ds: Seq<DirView>,
    later_index: Index,
    later_bits: Seq<bool>,
    later: Seq<DirView>,
    hierarchies: nat,
    validation: RegistryValidation,
    d: int,
    t: int,
    n: nat,
)
    requires
        alike(ds, later),
        parented(ds),
        n <= ds.len(),
        forall|y: int|
            #![trigger ds[y]]
            0 <= y < n && below(ds, y, d, 257) ==> live_members(
                later_index,
                later_bits,
                hierarchies,
                validation,
                later[y],
            ).len() <= live_members(index, bits, hierarchies, validation, ds[y]).len() + (if y
                == t {
                1nat
            } else {
                0nat
            }),
    ensures
        live_among(later_index, later_bits, hierarchies, validation, later, d, n) <= live_among(
            index,
            bits,
            hierarchies,
            validation,
            ds,
            d,
            n,
        ) + (if 0 <= t < n && below(ds, t, d, 257) {
            1nat
        } else {
            0nat
        }),
    decreases n,
{
    if n > 0 {
        counts_follow(
            index,
            bits,
            ds,
            later_index,
            later_bits,
            later,
            hierarchies,
            validation,
            d,
            t,
            (n - 1) as nat,
        );
        same_below(ds, later, n - 1, d, 257);
        assert(ds[n - 1] == ds[n - 1]);
    }
}

/// Fewer members, or the same, and no more.
proof fn fewer_members(few: Set<u64>, many: Set<u64>)
    requires
        few.subset_of(many),
    ensures
        few.len() <= many.len(),
{
    numbers_are_finite(many);
    lemma_len_subset(few, many);
}

/// At most one member more.
pub(crate) proof fn one_member_more(few: Set<u64>, many: Set<u64>, pid: u64)
    requires
        few.subset_of(many.insert(pid)),
    ensures
        few.len() <= many.len() + 1,
{
    numbers_are_finite(many);
    numbers_are_finite(many.insert(pid));
    lemma_len_subset(few, many.insert(pid));
}

/// Without the memberships of directories that are gone, nobody new can be seen.
proof fn purging_shows_nobody(
    registry: PidMembershipRegistry,
    forest: Forest,
    validation: RegistryValidation,
    y: int,
)
    requires
        registry.refers(forest),
        0 <= y < forest@.len(),
    ensures
        live_members(
            purged(registry.index(), registry.bits(), forest@),
            registry.bits(),
            forest.hierarchies@.len(),
            validation,
            forest@[y],
        ).len() <= live_members(
            registry.index(),
            registry.bits(),
            forest.hierarchies@.len(),
            validation,
            forest@[y],
        ).len(),
{
    let index = registry.index();
    let bits = registry.bits();
    let hs = forest.hierarchies@.len();
    let kept = purged(index, bits, forest@);
    let few = live_members(kept, bits, hs, validation, forest@[y]);
    let many = live_members(index, bits, hs, validation, forest@[y]);
    assert forall|q: u64| few.contains(q) implies many.contains(q) by {
        let p = forest@[y].pids[q];
        let h = choose|h: usize|
            h < hs && #[trigger] kept.contains_key((q, h)) && kept[(q, h)].publication == p
                && accepts(validation, q, kept[(q, h)]);
        assert(index.contains_key((q, h)));
        assert(is_current(index, bits, hs, validation, q, p));
    }
    fewer_members(few, many);
}

/// An attach keeps every peak at or above the members that can be seen, whether it
/// succeeds or fails.
pub proof fn law_an_attach_keeps_the_peaks(
    registry: PidMembershipRegistry,
    forest: Forest,
    validation: RegistryValidation,
    target: usize,
    pid: u64,
    charge_fork: bool,
)
    requires
        forest.wf(),
        registry.refers(forest),
        registry.bits().len() < usize::MAX,
        target < forest@.len(),
        covered(registry.index(), registry.bits(), validation, forest.hierarchies@, forest@),
        ({
            let after = attach_effect(
                registry.index(),
                registry.bits(),
                registry.global_limit,
                registry.per_cgroup_limit,
                validation,
                forest.hierarchies@,
                forest@,
                target,
                pid,
                charge_fork,
            );
            countable(after.0, after.1, validation, forest.hierarchies@, after.2)
        }),
    ensures
        ({
            let after = attach_effect(
                registry.index(),
                registry.bits(),
                registry.global_limit,
                registry.per_cgroup_limit,
                validation,
                forest.hierarchies@,
                forest@,
                target,
                pid,
                charge_fork,
            );
            covered(after.0, after.1, validation, forest.hierarchies@, after.2)
        }),
{
    let index = registry.index();
    let bits = registry.bits();
    let ds = forest@;
    let hs = forest.hierarchies@;
    let kept = purged(index, bits, ds);
    let outcome = attach_outcome(
        index,
        bits,
        registry.global_limit,
        registry.per_cgroup_limit,
        hs,
        ds,
        target,
        pid,
        charge_fork,
    );
    let after = attach_effect(
        index,
        bits,
        registry.global_limit,
        registry.per_cgroup_limit,
        validation,
        hs,
        ds,
        target,
        pid,
        charge_fork,
    );
    assert(parented(ds));
    if outcome == Ok::<bool, Error>(true) {
        let key = (pid, ds[target as int].hierarchy);
        let publication = bits.len() as usize;
        let dirs = moved(ds, kept.get(key), target, pid, publication);
        assert(alike(ds, dirs));
        assert(alike(dirs, after.2));
        assert(alike(ds, after.2));
        law_a_walk_meets_no_directory_twice(forest, target as int);
        same_chain(ds, dirs, target as int, ds.len());
        assert forall|x: int|
            #![trigger after.2[x]]
            0 <= x < after.2.len() && after.2[x].live && pids_active(hs, after.2, x) implies live_count(
            after.0,
            after.1,
            hs.len(),
            validation,
            after.2,
            x,
        ) <= after.2[x].pids_peak by {
            same_activity(hs, ds, dirs, x);
            same_activity(hs, dirs, after.2, x);
            assert(ds[x].live == after.2[x].live);
            counts_follow(
                after.0,
                after.1,
                dirs,
                after.0,
                after.1,
                after.2,
                hs.len(),
                validation,
                x,
                -1,
                ds.len(),
            );
            assert(live_count(after.0, after.1, hs.len(), validation, after.2, x) <= live_count(
                after.0,
                after.1,
                hs.len(),
                validation,
                dirs,
                x,
            ));
            if chain(dirs, target as int, dirs.len()).contains(x) {
                counts_follow(
                    after.0,
                    after.1,
                    after.2,
                    after.0,
                    after.1,
                    dirs,
                    hs.len(),
                    validation,
                    x,
                    -1,
                    ds.len(),
                );
            } else {
                if below(ds, target as int, x, 257) {
                    found_on_the_way(ds, target as int, x, 257, ds.len());
                }
                assert forall|y: int|
                    #![trigger ds[y]]
                    0 <= y < ds.len() && below(ds, y, x, 257) implies live_members(
                    after.0,
                    after.1,
                    hs.len(),
                    validation,
                    dirs[y],
                ).len() <= live_members(index, bits, hs.len(), validation, ds[y]).len() + (if y
                    == -1 {
                    1nat
                } else {
                    0nat
                }) by {
                    let few = live_members(after.0, after.1, hs.len(), validation, dirs[y]);
                    let many = live_members(index, bits, hs.len(), validation, ds[y]);
                    assert forall|q: u64| few.contains(q) implies many.contains(q) by {
                        let p = dirs[y].pids[q];
                        assert(ds[y].pids.contains_key(q) && ds[y].pids[q] == p);
                        let h = choose|h: usize|
                            h < hs.len() && #[trigger] after.0.contains_key((q, h)) && after.0[(
                                q,
                                h,
                            )].publication == p && accepts(
                                validation,
                                q,
                                after.0[(q, h)],
                            );
                        assert(after.0.contains_key((q, h)));
                        assert((q, h) != key);
                        assert(kept.contains_key((q, h)));
                        assert(index.contains_key((q, h)));
                        assert(is_current(index, bits, hs.len(), validation, q, p));
                    }
                    fewer_members(few, many);
                }
                counts_follow(
                    index,
                    bits,
                    ds,
                    after.0,
                    after.1,
                    dirs,
                    hs.len(),
                    validation,
                    x,
                    -1,
                    ds.len(),
                );
                assert(after.2[x].pids_peak == ds[x].pids_peak);
            }
        }
    } else {
        limiting_is_there(hs, ds, target as int, ds.len());
        assert(alike(ds, after.2));
        assert forall|x: int|
            #![trigger after.2[x]]
            0 <= x < after.2.len() && after.2[x].live && pids_active(hs, after.2, x) implies live_count(
            after.0,
            after.1,
            hs.len(),
            validation,
            after.2,
            x,
        ) <= after.2[x].pids_peak by {
            same_activity(hs, ds, after.2, x);
            assert(ds[x].live == after.2[x].live);
            assert forall|y: int|
                #![trigger ds[y]]
                0 <= y < ds.len() && below(ds, y, x, 257) implies live_members(
                after.0,
                after.1,
                hs.len(),
                validation,
                after.2[y],
            ).len() <= live_members(index, bits, hs.len(), validation, ds[y]).len() + (if y == -1 {
                1nat
            } else {
                0nat
            }) by {
                purging_shows_nobody(registry, forest, validation, y);
                assert(after.2[y].pids == ds[y].pids);
            }
            counts_follow(
                index,
                bits,
                ds,
                after.0,
                after.1,
                after.2,
                hs.len(),
                validation,
                x,
                -1,
                ds.len(),
            );
        }
    }
}

/// What counting the child in its places does: nothing but raise peaks, and each peak on
/// the way up from a place to the members that can be seen and one more.
proof fn pending_peaks_rise(
    index: Index,
    bits: Seq<bool>,
    validation: RegistryValidation,
    hs: Seq<Hierarchy>,
    ds: Seq<DirView>,
    places: Seq<(usize, usize)>,
    n: nat,
)
    requires
        n <= places.len(),
        parented(ds),
        forall|i: int| 0 <= i < places.len() ==> (#[trigger] places[i]).1 < ds.len(),
    ensures
        ({
            let after = pending_peaks(index, bits, validation, hs, ds, places, n);
            &&& alike(ds, after)
            &&& forall|x: int|
                0 <= x < ds.len() ==> (#[trigger] after[x]).pids == ds[x].pids
                    && after[x].pids_peak >= ds[x].pids_peak
            &&& forall|i: int, x: int|
                0 <= i < n && 0 <= x < ds.len() && #[trigger] chain(
                    ds,
                    (#[trigger] places[i]).1 as int,
                    ds.len(),
                ).contains(x) && pids_active(hs, ds, x) && live_count(
                    index,
                    bits,
                    hs.len(),
                    validation,
                    ds,
                    x,
                ) + 1 <= u64::MAX ==> after[x].pids_peak >= live_count(
                    index,
                    bits,
                    hs.len(),
                    validation,
                    ds,
                    x,
                ) + 1
        }),
    decreases n,
{
    if n > 0 {
        pending_peaks_rise(index, bits, validation, hs, ds, places, (n - 1) as nat);
        let before = pending_peaks(index, bits, validation, hs, ds, places, (n - 1) as nat);
        let after = pending_peaks(index, bits, validation, hs, ds, places, n);
        let t = places[n - 1].1 as int;
        assert(alike(ds, after)) by {
            assert forall|x: int|
                #![trigger ds[x]]
                #![trigger after[x]]
                0 <= x < ds.len() implies ds[x].parent == after[x].parent && ds[x].live
                == after[x].live && ds[x].linked == after[x].linked && ds[x].hierarchy
                == after[x].hierarchy && ds[x].subtree_pids == after[x].subtree_pids by {
                assert(before[x].parent == ds[x].parent);
            }
        }
        assert forall|x: int| 0 <= x < ds.len() implies (#[trigger] after[x]).pids == ds[x].pids
            && after[x].pids_peak >= ds[x].pids_peak by {
            assert(before[x].pids == ds[x].pids);
        }
        same_chain(ds, before, t, ds.len());
        assert forall|i: int, x: int|
            0 <= i < n && 0 <= x < ds.len() && #[trigger] chain(
                ds,
                (#[trigger] places[i]).1 as int,
                ds.len(),
            ).contains(x) && pids_active(hs, ds, x) && live_count(
                index,
                bits,
                hs.len(),
                validation,
                ds,
                x,
            ) + 1 <= u64::MAX implies after[x].pids_peak >= live_count(
            index,
            bits,
            hs.len(),
            validation,
            ds,
            x,
        ) + 1 by {
            assert(after[x].pids_peak >= before[x].pids_peak);
            if i == n - 1 {
                same_activity(hs, ds, before, x);
                assert forall|y: int|
                    #![trigger ds[y]]
                    0 <= y < ds.len() && below(ds, y, x, 257) implies live_members(
                    index,
                    bits,
                    hs.len(),
                    validation,
                    before[y],
                ).len() <= live_members(index, bits, hs.len(), validation, ds[y]).len() + (if y
                    == -1 {
                    1nat
                } else {
                    0nat
                }) by {
                    assert(before[y].pids == ds[y].pids);
                }
                counts_follow(
                    index,
                    bits,
                    ds,
                    index,
                    bits,
                    before,
                    hs.len(),
                    validation,
                    x,
                    -1,
                    ds.len(),
                );
                assert forall|y: int|
                    #![trigger before[y]]
                    0 <= y < ds.len() && below(before, y, x, 257) implies live_members(
                    index,
                    bits,
                    hs.len(),
                    validation,
                    ds[y],
                ).len() <= live_members(index, bits, hs.len(), validation, before[y]).len() + (
                if y == -1 {
                    1nat
                } else {
                    0nat
                }) by {
                    assert(before[y].pids == ds[y].pids);
                }
                assert(parented(before)) by {
                    assert forall|y: int|
                        #![trigger before[y]]
                        0 <= y < before.len() implies (before[y].parent matches Some(p) ==> p
                        < before.len()) by {
                        assert(ds[y].parent == before[y].parent);
                    }
                }
                assert(alike(before, ds));
                counts_follow(
                    index,
                    bits,
                    before,
                    index,
                    bits,
                    ds,
                    hs.len(),
                    validation,
                    x,
                    -1,
                    ds.len(),
                );
            }
        }
    }
}

/// Whether a publication is the child's alone.
pub open spec fn is_its_own(index: Index, publication: usize, child: u64) -> bool {
    forall|k: (u64, usize)| #[trigger]
        index.contains_key(k) && index[k].publication == publication ==> k.0 == child
}

/// Committing a fork keeps every peak at or above the members that can be seen: the
/// child is counted before it can be.
pub proof fn law_a_commit_keeps_the_peaks(
    registry: PidMembershipRegistry,
    forest: Forest,
    validation: RegistryValidation,
    admission: CgroupForkAdmission,
    process: Option<(usize, usize)>,
    gone: Seq<usize>,
)
    requires
        forest.wf(),
        registry.refers(forest),
        agree(registry.index(), forest@),
        covered(registry.index(), registry.bits(), validation, forest.hierarchies@, forest@),
        forall|x: int|
            #![trigger forest@[x]]
            0 <= x < forest@.len() ==> live_count(
                registry.index(),
                registry.bits(),
                forest.hierarchies@.len(),
                validation,
                forest@,
                x,
            ) < u64::MAX,
        still_held(registry.index(), forest@, admission),
        admission.publication is Some,
        admission.publication->0 < registry.bits().len(),
        !registry.bits()[admission.publication->0 as int],
        is_its_own(registry.index(), admission.publication->0, admission.child_pid),
    ensures
        ({
            let places = admission.reservations@;
            let index = if places.len() > 0 && process is Some {
                bound(registry.index(), admission.child_pid, (process->0).0, (process->0).1, gone)
            } else {
                registry.index()
            };
            covered(
                index,
                registry.bits().update(admission.publication->0 as int, true),
                validation,
                forest.hierarchies@,
                pending_peaks(
                    index,
                    registry.bits(),
                    validation,
                    forest.hierarchies@,
                    forest@,
                    places,
                    places.len(),
                ),
            )
        }),
{
    let places = admission.reservations@;
    let child = admission.child_pid;
    let publication = admission.publication->0;
    let before = registry.index();
    let bits = registry.bits();
    let hs = forest.hierarchies@;
    let ds = forest@;
    let index = if places.len() > 0 && process is Some {
        bound(before, child, (process->0).0, (process->0).1, gone)
    } else {
        before
    };
    let shown = bits.update(publication as int, true);
    let after = pending_peaks(index, bits, validation, hs, ds, places, places.len());
    assert(parented(ds));
    pending_peaks_rise(index, bits, validation, hs, ds, places, places.len());
    assert forall|k: (u64, usize)| #[trigger] index.contains_key(k) implies before.contains_key(k)
        && index[k].publication == before[k].publication && (k.0 != child ==> index[k]
        == before[k]) by {}
    assert forall|y: int| 0 <= y < ds.len() implies live_members(
        index,
        bits,
        hs.len(),
        validation,
        #[trigger] ds[y],
    ).subset_of(live_members(before, bits, hs.len(), validation, ds[y])) by {
        let few = live_members(index, bits, hs.len(), validation, ds[y]);
        let many = live_members(before, bits, hs.len(), validation, ds[y]);
        assert forall|q: u64| few.contains(q) implies many.contains(q) by {
            hidden_is_not_seen(before, index, bits, hs.len(), validation, ds, admission, y, q);
        }
    }
    assert forall|x: int|
        #![trigger after[x]]
        0 <= x < after.len() && after[x].live && pids_active(hs, after, x) implies live_count(
        index,
        shown,
        hs.len(),
        validation,
        after,
        x,
    ) <= after[x].pids_peak by {
        same_activity(hs, ds, after, x);
        assert(ds[x].live == after[x].live);
        assert forall|y: int|
            #![trigger ds[y]]
            0 <= y < ds.len() && below(ds, y, x, 257) implies live_members(
            index,
            bits,
            hs.len(),
            validation,
            ds[y],
        ).len() <= live_members(before, bits, hs.len(), validation, ds[y]).len() + (if y == -1 {
            1nat
        } else {
            0nat
        }) by {
            fewer_members(
                live_members(index, bits, hs.len(), validation, ds[y]),
                live_members(before, bits, hs.len(), validation, ds[y]),
            );
        }
        counts_follow(
            before,
            bits,
            ds,
            index,
            bits,
            ds,
            hs.len(),
            validation,
            x,
            -1,
            ds.len(),
        );
        let t: int = if exists|i: int|
            0 <= i < places.len() && below(ds, (#[trigger] places[i]).1 as int, x, 257) {
            places[choose|i: int|
                0 <= i < places.len() && below(ds, (#[trigger] places[i]).1 as int, x, 257)].1 as int
        } else {
            -1
        };
        assert forall|y: int|
            #![trigger ds[y]]
            0 <= y < ds.len() && below(ds, y, x, 257) implies live_members(
            index,
            shown,
            hs.len(),
            validation,
            after[y],
        ).len() <= live_members(index, bits, hs.len(), validation, ds[y]).len() + (if y == t {
            1nat
        } else {
            0nat
        }) by {
            let few = live_members(index, shown, hs.len(), validation, after[y]);
            let many = live_members(index, bits, hs.len(), validation, ds[y]);
            assert(after[y].pids == ds[y].pids);
            found_in_the_hierarchy(forest, y, x, 257);
            assert forall|q: u64| few.contains(q) && !many.contains(q) implies q == child && y
                == t by {
                let p = ds[y].pids[q];
                if p != publication {
                    assert(shown[p as int] == bits[p as int]);
                    assert(is_current(index, bits, hs.len(), validation, q, p));
                }
                assert(p == publication);
                let h = ds[y].hierarchy;
                assert(ds[y].live);
                assert(before.contains_key((q, h)) && before[(q, h)].target == y);
                assert(q == child);
                assert(before.contains_key((child, h)));
                let i = choose|i: int| 0 <= i < places.len() && (#[trigger] places[i]).0 == h;
                assert(places[i].1 == y);
                assert(below(ds, places[i].1 as int, x, 257));
                let j = choose|j: int|
                    0 <= j < places.len() && below(ds, (#[trigger] places[j]).1 as int, x, 257);
                found_in_the_hierarchy(forest, places[j].1 as int, x, 257);
                assert(places[j].0 == places[i].0);
                assert(i == j) by {
                    if i < j {
                        assert(places[i].0 != places[j].0);
                    } else if j < i {
                        assert(places[j].0 != places[i].0);
                    }
                }
            }
            if y == t {
                assert(few.subset_of(many.insert(child)));
                one_member_more(few, many, child);
            } else {
                assert(few.subset_of(many));
                fewer_members(few, many);
            }
        }
        counts_follow(
            index,
            bits,
            ds,
            index,
            shown,
            after,
            hs.len(),
            validation,
            x,
            t,
            ds.len(),
        );
        if 0 <= t < ds.len() && below(ds, t, x, 257) {
            let j = choose|j: int|
                0 <= j < places.len() && below(ds, (#[trigger] places[j]).1 as int, x, 257);
            assert(places[j].1 == t);
            law_a_walk_meets_no_directory_twice(forest, t);
            found_on_the_way(ds, t, x, 257, ds.len());
            assert(chain(ds, places[j].1 as int, ds.len()).contains(x));
        }
    }
}

/// A membership that is hidden is nobody's, before and after it was bound.
proof fn hidden_is_not_seen(
    before: Index,
    index: Index,
    bits: Seq<bool>,
    hierarchies: nat,
    validation: RegistryValidation,
    ds: Seq<DirView>,
    admission: CgroupForkAdmission,
    y: int,
    q: u64,
)
    requires
        still_held(before, ds, admission),
        admission.publication is Some,
        !bits[admission.publication->0 as int],
        0 <= y < ds.len(),
        forall|k: (u64, usize)| #[trigger]
            index.contains_key(k) ==> before.contains_key(k) && index[k].publication
                == before[k].publication && (k.0 != admission.child_pid ==> index[k] == before[k]),
        live_members(index, bits, hierarchies, validation, ds[y]).contains(q),
    ensures
        live_members(before, bits, hierarchies, validation, ds[y]).contains(q),
{
    let p = ds[y].pids[q];
    let places = admission.reservations@;
    let h = choose|h: usize|
        h < hierarchies && #[trigger] index.contains_key((q, h)) && index[(q, h)].publication == p
            && accepts(validation, q, index[(q, h)]);
    assert(index.contains_key((q, h)));
    assert(before.contains_key((q, h)));
    if q == admission.child_pid {
        let i = choose|i: int| 0 <= i < places.len() && (#[trigger] places[i]).0 == h;
        assert(Some(before[(q, places[i].0)].publication) == admission.publication);
        assert(false);
    }
    assert(is_current(before, bits, hierarchies, validation, q, p));
}

/// Where nobody new can be seen and no peak falls, every peak stays at or above the
/// members that can be seen: so it is when memberships are forgotten, given back or
/// purged.
pub proof fn law_fewer_members_keep_the_peaks(
    index: Index,
    bits: Seq<bool>,
    ds: Seq<DirView>,
    later_index: Index,
    later_bits: Seq<bool>,
    later: Seq<DirView>,
    validation: RegistryValidation,
    hs: Seq<Hierarchy>,
)
    requires
        alike(ds, later),
        parented(ds),
        covered(index, bits, validation, hs, ds),
        forall|y: int|
            #![trigger ds[y]]
            0 <= y < ds.len() ==> ds[y].pids_peak <= later[y].pids_peak && live_members(
                later_index,
                later_bits,
                hs.len(),
                validation,
                later[y],
            ).subset_of(live_members(index, bits, hs.len(), validation, ds[y])),
    ensures
        covered(later_index, later_bits, validation, hs, later),
{
    assert forall|x: int|
        #![trigger later[x]]
        0 <= x < later.len() && later[x].live && pids_active(hs, later, x) implies live_count(
        later_index,
        later_bits,
        hs.len(),
        validation,
        later,
        x,
    ) <= later[x].pids_peak by {
        same_activity(hs, ds, later, x);
        assert(ds[x].live == later[x].live);
        assert forall|y: int|
            #![trigger ds[y]]
            0 <= y < ds.len() && below(ds, y, x, 257) implies live_members(
            later_index,
            later_bits,
            hs.len(),
            validation,
            later[y],
        ).len() <= live_members(index, bits, hs.len(), validation, ds[y]).len() + (if y == -1 {
            1nat
        } else {
            0nat
        }) by {
            fewer_members(
                live_members(later_index, later_bits, hs.len(), validation, later[y]),
                live_members(index, bits, hs.len(), validation, ds[y]),
            );
        }
        counts_follow(
            index,
            bits,
            ds,
            later_index,
            later_bits,
            later,
            hs.len(),
            validation,
            x,
            -1,
            ds.len(),
        );
    }
}

/// What is found below a directory that `c` did not come below was found there before.
proof fn found_before(
    ds: Seq<DirView>,
    moved: Seq<DirView>,
    c: int,
    x: int,
    d: int,
    k: nat,
    n: nat,
)
    requires
        parented(ds),
        moved.len() == ds.len(),
        0 <= x < ds.len(),
        forall|y: int|
            #![trigger moved[y]]
            0 <= y < ds.len() ==> moved[y].live == ds[y].live && (y != c ==> moved[y].parent
                == ds[y].parent && moved[y].linked == ds[y].linked),
        ends(moved, c, n),
        !chain(moved, c, n).contains(d),
        below(moved, x, d, k),
    ensures
        below(ds, x, d, k),
    decreases k,
{
    if x != d {
        if x == c {
            found_on_the_way(moved, c, d, k, n);
        }
        assert(moved[x].parent == ds[x].parent && moved[x].linked == ds[x].linked);
        if let Some(p) = parent_of(moved, x) {
            assert(moved[p].live == ds[p].live);
            found_before(ds, moved, c, p, d, (k - 1) as nat, n);
        }
    }
}

/// Counts of what is found below no more directories, with the same members.
proof fn counts_shrink(
    index: Index,
    bits: Seq<bool>,
    ds: Seq<DirView>,
    later: Seq<DirView>,
    hierarchies: nat,
    validation: RegistryValidation,
    d: int,
    n: nat,
)
    requires
        n <= ds.len(),
        later.len() == ds.len(),
        forall|y: int|
            #![trigger later[y]]
            0 <= y < n ==> later[y].pids == ds[y].pids && (below(later, y, d, 257) ==> below(
                ds,
                y,
                d,
                257,
            )),
    ensures
        live_among(index, bits, hierarchies, validation, later, d, n) <= live_among(
            index,
            bits,
            hierarchies,
            validation,
            ds,
            d,
            n,
        ),
    decreases n,
{
    if n > 0 {
        counts_shrink(index, bits, ds, later, hierarchies, validation, d, (n - 1) as nat);
        assert(later[n - 1].pids == ds[n - 1].pids);
    }
}

proof fn same_ends(a: Seq<DirView>, b: Seq<DirView>, x: int, k: nat)
    requires
        alike(a, b),
        parented(a),
        0 <= x < a.len(),
    ensures
        ends(a, x, k) == ends(b, x, k),
    decreases k,
{
    if k > 0 {
        same_parent(a, b, x);
        if let Some(p) = parent_of(a, x) {
            same_ends(a, b, p, (k - 1) as nat);
        }
    }
}

/// A rename keeps every peak at or above the members that can be seen: those of the
/// directories that it came below are raised, and no other has more to count.
pub proof fn law_a_rename_keeps_the_peaks(
    registry: PidMembershipRegistry,
    validation: RegistryValidation,
    forest: Forest,
    later: Forest,
    held: bool,
    from: int,
    src_name: Seq<u8>,
    src: Entry,
    to: int,
    dst_name: Seq<u8>,
    dst: Option<Entry>,
    now: u64,
)
    requires
        forest.wf(),
        later.wf(),
        later.hierarchies == forest.hierarchies,
        registry.refers(forest),
        0 <= from < forest@.len(),
        0 <= to < forest@.len() <= usize::MAX,
        covered(registry.index(), registry.bits(), validation, forest.hierarchies@, forest@),
        countable(registry.index(), registry.bits(), validation, forest.hierarchies@, later@),
        rename_outcome(
            forest.hierarchies@,
            forest@,
            held,
            from,
            src_name,
            src,
            to,
            dst_name,
            dst,
        ) == Ok::<bool, Error>(true),
        later@ == ({
            let after = renamed(forest@, from, src_name, to, dst_name, now);
            if from == to {
                after
            } else {
                peaked(
                    registry.index(),
                    registry.bits(),
                    validation,
                    forest.hierarchies@,
                    after,
                    forest@[from].children[src_name] as int,
                    0,
                )
            }
        }),
    ensures
        covered(registry.index(), registry.bits(), validation, forest.hierarchies@, later@),
{
    let index = registry.index();
    let bits = registry.bits();
    let hs = forest.hierarchies@;
    let ds = forest@;
    let c = ds[from].children[src_name] as int;
    let after = renamed(ds, from, src_name, to, dst_name, now);
    assert(ds[from].children.contains_key(src_name));
    assert(ds[c].parent == Some(from as usize) && ds[c].linked);
    assert(parented(ds));
    assert(parented(later@));
    assert(alike(later@, after));
    law_a_walk_meets_no_directory_twice(later, c);
    same_ends(later@, after, c, ds.len());
    same_chain(later@, after, c, ds.len());
    assert forall|y: int|
        #![trigger after[y]]
        0 <= y < ds.len() implies after[y].live == ds[y].live && after[y].pids == ds[y].pids
        && after[y].pids_peak == ds[y].pids_peak && after[y].hierarchy == ds[y].hierarchy
        && after[y].subtree_pids == ds[y].subtree_pids && (y != c ==> after[y].parent
        == ds[y].parent && after[y].linked == ds[y].linked) by {}
    assert forall|x: int|
        #![trigger later@[x]]
        0 <= x < later@.len() && later@[x].live && pids_active(hs, later@, x) implies live_count(
        index,
        bits,
        hs.len(),
        validation,
        later@,
        x,
    ) <= later@[x].pids_peak by {
        same_activity(hs, later@, after, x);
        assert(later@[x].live == after[x].live);
        assert(after[x].live == ds[x].live);
        assert(pids_active(hs, ds, x)) by {
            if x != c {
                assert(after[x].parent == ds[x].parent);
                if let Some(p) = ds[x].parent {
                    assert(after[p as int].live == ds[p as int].live);
                    assert(after[p as int].subtree_pids == ds[p as int].subtree_pids);
                }
            } else {
                assert(ds[c].hierarchy == ds[from].hierarchy);
            }
        }
        assert forall|y: int|
            #![trigger later@[y]]
            0 <= y < ds.len() implies later@[y].pids == after[y].pids && (below(
            later@,
            y,
            x,
            257,
        ) ==> below(after, y, x, 257)) by {
            same_below(later@, after, y, x, 257);
        }
        counts_shrink(index, bits, after, later@, hs.len(), validation, x, ds.len());
        if from != to && chain(after, c, after.len()).contains(x) {
            assert forall|y: int|
                #![trigger after[y]]
                0 <= y < ds.len() implies after[y].pids == later@[y].pids && (below(
                after,
                y,
                x,
                257,
            ) ==> below(later@, y, x, 257)) by {
                assert(later@[y] == later@[y]);
                same_below(later@, after, y, x, 257);
            }
            counts_shrink(index, bits, later@, after, hs.len(), validation, x, ds.len());
        } else {
            assert forall|y: int|
                #![trigger after[y]]
                0 <= y < ds.len() implies after[y].pids == ds[y].pids && (below(after, y, x, 257)
                ==> below(ds, y, x, 257)) by {
                if from == to {
                    assert(alike(ds, after));
                    same_below(ds, after, y, x, 257);
                } else if below(after, y, x, 257) {
                    found_before(ds, after, c, y, x, 257, ds.len());
                }
            }
            counts_shrink(index, bits, ds, after, hs.len(), validation, x, ds.len());
        }
    }
}

} // verus!
