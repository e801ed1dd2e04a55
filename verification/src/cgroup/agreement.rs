//! What every operation keeps between the two membership indexes.
//!
//! The registry says of a process and a hierarchy which directory it is in, and a
//! directory says which processes are in it.  A new registry has the two in
//! agreement, and each operation keeps them so.

use vstd::prelude::*;
use crate::cgroup::admission::{fork_crowded, fork_effect, fork_outcome, fork_refusal, given_back,
    hidden, is_known, pending_peaks, reserved, rollback_effect, without, CgroupForkAdmission};
use crate::cgroup::forest::{limiting, parent_of, DirView, Forest, Hierarchy, NodeMetadata};
use crate::cgroup::laws::{hidden_at, places_differ, reserved_at};
use crate::cgroup::listing::let_go;
use crate::cgroup::lookup::{bound, forgotten, released, releases, tidied, without_gone};
use crate::cgroup::namespace::{fresh, Entry};
use crate::cgroup::registry::{attach_effect, attach_outcome, charged, moved, peaked, purged, Index,
    PidMembershipRegistry, RegistryValidation};
use crate::cgroup::rename::{rename_outcome, renamed};
use crate::cgroup::tree::{published, unlinked};
use crate::error::Error;

verus! {

/// The two indexes say the same of every directory that is still there.
pub open spec fn agree(index: Index, ds: Seq<DirView>) -> bool {
    &&& forall|k: (u64, usize)| #[trigger]
        index.contains_key(k) && ds[index[k].target as int].live ==> {
            &&& index[k].target < ds.len()
            &&& ds[index[k].target as int].hierarchy == k.1
            &&& ds[index[k].target as int].pids.get(k.0) == Some(index[k].publication)
        }
    &&& forall|x: int, pid: u64|
        0 <= x < ds.len() && ds[x].live && #[trigger] ds[x].pids.contains_key(pid) ==> {
            let m = index[(pid, ds[x].hierarchy)];
            index.contains_key((pid, ds[x].hierarchy)) && m.target == x && m.publication
                == ds[x].pids[pid]
        }
}

/// Whether every membership leads to a directory.
pub open spec fn leads(index: Index, ds: Seq<DirView>) -> bool {
    forall|k: (u64, usize)| #[trigger] index.contains_key(k) ==> index[k].target < ds.len()
}

/// Whether two states of the directories have the same members.
pub open spec fn same_members(ds: Seq<DirView>, after: Seq<DirView>) -> bool {
    &&& after.len() == ds.len()
    &&& forall|x: int|
        #![trigger after[x]]
        0 <= x < ds.len() ==> after[x].pids == ds[x].pids && after[x].live == ds[x].live
            && after[x].hierarchy == ds[x].hierarchy
}

/// Whether `pid` is a member of `target` and, in that hierarchy, of nothing else: the
/// registry leads to the directory, the directory names the process, and no other
/// directory of the hierarchy does.
pub open spec fn only_in(index: Index, ds: Seq<DirView>, target: usize, pid: u64) -> bool {
    let h = ds[target as int].hierarchy;
    &&& index.contains_key((pid, h))
    &&& index[(pid, h)].target == target
    &&& ds[target as int].pids.get(pid) == Some(index[(pid, h)].publication)
    &&& forall|x: int|
        #![trigger ds[x]]
        0 <= x < ds.len() && x != target && ds[x].live && ds[x].hierarchy == h
            ==> !ds[x].pids.contains_key(pid)
}

/// What changes no directory's members keeps the agreement: limits, names, times,
/// peaks and freezing are all free.
pub proof fn law_agreement_rests_on_the_members(
    index: Index,
    ds: Seq<DirView>,
    after: Seq<DirView>,
)
    requires
        agree(index, ds),
        leads(index, ds),
        same_members(ds, after),
    ensures
        agree(index, after),
{
    assert forall|k: (u64, usize)| #[trigger]
        index.contains_key(k) && after[index[k].target as int].live implies {
        &&& index[k].target < after.len()
        &&& after[index[k].target as int].hierarchy == k.1
        &&& after[index[k].target as int].pids.get(k.0) == Some(index[k].publication)
    } by {
        let t = index[k].target as int;
        assert(after[t].live == ds[t].live);
    }
    assert forall|x: int, pid: u64|
        0 <= x < after.len() && after[x].live && #[trigger] after[x].pids.contains_key(
            pid,
        ) implies {
        let m = index[(pid, after[x].hierarchy)];
        index.contains_key((pid, after[x].hierarchy)) && m.target == x && m.publication
            == after[x].pids[pid]
    } by {
        assert(ds[x].pids.contains_key(pid));
    }
}

/// A new registry agrees with directories that have no members.
pub proof fn law_a_new_registry_agrees(ds: Seq<DirView>)
    requires
        forall|x: int|
            0 <= x < ds.len() ==> (#[trigger] ds[x]).pids == Map::<u64, usize>::empty(),
    ensures
        agree(Map::empty(), ds),
{
}

/// A new directory has no members, and keeps the agreement: when it is made, and
/// when its name is published.
pub proof fn law_a_new_directory_keeps_the_agreement(
    index: Index,
    ds: Seq<DirView>,
    p: int,
    name: Seq<u8>,
    hierarchy: usize,
    first_inode: u64,
    metadata: NodeMetadata,
    now: u64,
)
    requires
        agree(index, ds),
        leads(index, ds),
        0 <= p < ds.len() < usize::MAX,
    ensures
        ({
            let made = ds.push(fresh(hierarchy, first_inode, Some(p as usize), false, metadata));
            &&& agree(index, made)
            &&& agree(index, published(made, p, name, ds.len() as usize, now))
        }),
{
    let made = ds.push(fresh(hierarchy, first_inode, Some(p as usize), false, metadata));
    assert forall|k: (u64, usize)| #[trigger]
        index.contains_key(k) && made[index[k].target as int].live implies {
        &&& index[k].target < made.len()
        &&& made[index[k].target as int].hierarchy == k.1
        &&& made[index[k].target as int].pids.get(k.0) == Some(index[k].publication)
    } by {
        assert(made[index[k].target as int] == ds[index[k].target as int]);
    }
    assert forall|x: int, pid: u64|
        0 <= x < made.len() && made[x].live && #[trigger] made[x].pids.contains_key(pid) implies {
        let m = index[(pid, made[x].hierarchy)];
        index.contains_key((pid, made[x].hierarchy)) && m.target == x && m.publication
            == made[x].pids[pid]
    } by {
        assert(ds[x].pids.contains_key(pid));
    }
    law_agreement_rests_on_the_members(
        index,
        made,
        published(made, p, name, ds.len() as usize, now),
    );
}

/// A removal keeps the agreement, and so does letting a directory go.
pub proof fn law_a_removal_keeps_the_agreement(
    index: Index,
    ds: Seq<DirView>,
    p: int,
    name: Seq<u8>,
    x: int,
    now: u64,
)
    requires
        agree(index, ds),
        leads(index, ds),
        0 <= p < ds.len(),
        ds[p].children[name] < ds.len(),
        0 <= x < ds.len(),
    ensures
        agree(index, unlinked(ds, p, name, now)),
        agree(index, let_go(ds, x)),
{
    law_agreement_rests_on_the_members(index, ds, unlinked(ds, p, name, now));
    let after = let_go(ds, x);
    assert forall|y: int, pid: u64|
        0 <= y < after.len() && after[y].live && #[trigger] after[y].pids.contains_key(
            pid,
        ) implies {
        let m = index[(pid, after[y].hierarchy)];
        index.contains_key((pid, after[y].hierarchy)) && m.target == y && m.publication
            == after[y].pids[pid]
    } by {
        assert(ds[y].pids.contains_key(pid));
    }
}

/// A rename keeps the agreement, with the peaks that it raises.
pub proof fn law_a_rename_keeps_the_agreement(
    registry: PidMembershipRegistry,
    validation: RegistryValidation,
    forest: Forest,
    held: bool,
    from: int,
    src_name: Seq<u8>,
    src: Entry,
    to: int,
    dst_name: Seq<u8>,
    dst: Option<Entry>,
    now: u64,
)
    requires
        forest.wf(),
        registry.refers(forest),
        agree(registry.index(), forest@),
        0 <= from < forest@.len(),
        0 <= to < forest@.len(),
        rename_outcome(
            forest.hierarchies@,
            forest@,
            held,
            from,
            src_name,
            src,
            to,
            dst_name,
            dst,
        ) == Ok::<bool, Error>(true),
    ensures
        ({
            let after = renamed(forest@, from, src_name, to, dst_name, now);
            &&& agree(registry.index(), after)
            &&& agree(
                registry.index(),
                peaked(
                    registry.index(),
                    registry.bits(),
                    validation,
                    forest.hierarchies@,
                    after,
                    forest@[from].children[src_name] as int,
                    0,
                ),
            )
        }),
{
    let ds = forest@;
    assert(ds[from].children.contains_key(src_name));
    let after = renamed(ds, from, src_name, to, dst_name, now);
    assert(same_members(ds, after));
    law_agreement_rests_on_the_members(registry.index(), ds, after);
    law_agreement_rests_on_the_members(
        registry.index(),
        after,
        peaked(
            registry.index(),
            registry.bits(),
            validation,
            forest.hierarchies@,
            after,
            ds[from].children[src_name] as int,
            0,
        ),
    );
}

/// Forgetting the memberships of directories that are gone keeps the agreement.
pub proof fn law_a_purge_keeps_the_agreement(
    index: Index,
    bits: Seq<bool>,
    ds: Seq<DirView>,
    pid: u64,
)
    requires
        agree(index, ds),
    ensures
        agree(purged(index, bits, ds), ds),
        agree(without_gone(index, ds, pid), ds),
{
    let kept = purged(index, bits, ds);
    assert forall|k: (u64, usize)| #[trigger]
        kept.contains_key(k) && ds[kept[k].target as int].live implies {
        &&& kept[k].target < ds.len()
        &&& ds[kept[k].target as int].hierarchy == k.1
        &&& ds[kept[k].target as int].pids.get(k.0) == Some(kept[k].publication)
    } by {
        assert(index.contains_key(k));
    }
    let rest = without_gone(index, ds, pid);
    assert forall|k: (u64, usize)| #[trigger]
        rest.contains_key(k) && ds[rest[k].target as int].live implies {
        &&& rest[k].target < ds.len()
        &&& ds[rest[k].target as int].hierarchy == k.1
        &&& ds[rest[k].target as int].pids.get(k.0) == Some(rest[k].publication)
    } by {
        assert(index.contains_key(k));
    }
}

/// Binding memberships to a process keeps the agreement.
pub proof fn law_binding_keeps_the_agreement(
    index: Index,
    ds: Seq<DirView>,
    pid: u64,
    identity: usize,
    process: usize,
    gone: Seq<usize>,
)
    requires
        agree(index, ds),
    ensures
        agree(bound(index, pid, identity, process, gone), ds),
{
    let after = bound(index, pid, identity, process, gone);
    assert forall|k: (u64, usize)| #[trigger] after.contains_key(k) implies index.contains_key(k)
        && after[k].target == index[k].target && after[k].publication
        == index[k].publication by {}
    assert forall|x: int, p: u64|
        0 <= x < ds.len() && ds[x].live && #[trigger] ds[x].pids.contains_key(p) implies {
        let m = after[(p, ds[x].hierarchy)];
        after.contains_key((p, ds[x].hierarchy)) && m.target == x && m.publication
            == ds[x].pids[p]
    } by {
        assert(index.contains_key((p, ds[x].hierarchy)));
        assert(after.contains_key((p, ds[x].hierarchy)));
    }
}

/// Forgetting the memberships of a process keeps the agreement: always, where those
/// of an earlier owner of its number go, and where its own go as long as none of
/// them is hidden, which a process that never forked is not.
pub proof fn law_a_detach_keeps_the_agreement(
    registry: PidMembershipRegistry,
    forest: Forest,
    pid: u64,
    identity: usize,
    matching: bool,
)
    requires
        registry.refers(forest),
        agree(registry.index(), forest@),
        matching ==> forall|h: usize| #[trigger]
            registry.index().contains_key((pid, h)) && crate::cgroup::lookup::matches(
                registry.index()[(pid, h)],
                identity,
            ) ==> registry.bits()[registry.index()[(pid, h)].publication as int],
    ensures
        agree(
            forgotten(registry.index(), pid, identity, matching),
            released(
                registry.index(),
                registry.bits(),
                forest@,
                pid,
                identity,
                matching,
                forest.hierarchies@.len(),
            ),
        ),
{
    let index = registry.index();
    let bits = registry.bits();
    let ds = forest@;
    let n = forest.hierarchies@.len();
    let rest = forgotten(index, pid, identity, matching);
    let after = released(index, bits, ds, pid, identity, matching, n);
    assert forall|k: (u64, usize)| #[trigger]
        rest.contains_key(k) && after[rest[k].target as int].live implies {
        &&& rest[k].target < after.len()
        &&& after[rest[k].target as int].hierarchy == k.1
        &&& after[rest[k].target as int].pids.get(k.0) == Some(rest[k].publication)
    } by {
        assert(index.contains_key(k));
        let t = rest[k].target as int;
        if releases(index, bits, ds, pid, identity, matching, n, t) {
            let h = choose|h: usize|
                h < n && #[trigger] index.contains_key((pid, h)) && crate::cgroup::lookup::matches(
                    index[(pid, h)],
                    identity,
                ) == matching && (!matching || bits[index[(pid, h)].publication as int]) && index[(
                    pid,
                    h,
                )].target == t && ds[t].live && ds[t].pids.get(pid) == Some(
                    index[(pid, h)].publication,
                );
            assert(ds[t].hierarchy == h);
            assert(k.1 == h);
            assert(k.0 != pid) by {
                if k.0 == pid {
                    assert(k == (pid, h));
                }
            }
        }
    }
    assert forall|x: int, p: u64|
        0 <= x < after.len() && after[x].live && #[trigger] after[x].pids.contains_key(p) implies {
        let m = rest[(p, after[x].hierarchy)];
        rest.contains_key((p, after[x].hierarchy)) && m.target == x && m.publication
            == after[x].pids[p]
    } by {
        assert(ds[x].pids.contains_key(p));
        let h = ds[x].hierarchy;
        assert(index.contains_key((p, h)));
        if p == pid && crate::cgroup::lookup::matches(index[(p, h)], identity) == matching {
            assert(releases(index, bits, ds, pid, identity, matching, n, x));
            assert(false);
        }
    }
}

/// Tidying the memberships of a process keeps the agreement where those of an
/// earlier owner of its number are gone already.
pub proof fn law_tidying_keeps_the_agreement(
    index: Index,
    ds: Seq<DirView>,
    pid: u64,
    identity: usize,
)
    requires
        agree(index, ds),
        forall|h: usize| #[trigger]
            index.contains_key((pid, h)) && ds[index[(pid, h)].target as int].live ==> crate::cgroup::lookup::matches(
                index[(pid, h)],
                identity,
            ),
    ensures
        agree(tidied(index, ds, pid, identity), ds),
{
    let rest = tidied(index, ds, pid, identity);
    assert forall|k: (u64, usize)| #[trigger]
        rest.contains_key(k) && ds[rest[k].target as int].live implies {
        &&& rest[k].target < ds.len()
        &&& ds[rest[k].target as int].hierarchy == k.1
        &&& ds[rest[k].target as int].pids.get(k.0) == Some(rest[k].publication)
    } by {
        assert(index.contains_key(k));
    }
    assert forall|x: int, p: u64|
        0 <= x < ds.len() && ds[x].live && #[trigger] ds[x].pids.contains_key(p) implies {
        let m = rest[(p, ds[x].hierarchy)];
        rest.contains_key((p, ds[x].hierarchy)) && m.target == x && m.publication
            == ds[x].pids[p]
    } by {
        assert(index.contains_key((p, ds[x].hierarchy)));
    }
}

/// The directory whose limit a fork runs into is one of the directories.
pub(crate) proof fn limiting_is_there(hs: Seq<Hierarchy>, ds: Seq<DirView>, x: int, steps: nat)
    requires
        0 <= x < ds.len(),
        forall|y: int|
            #![trigger ds[y]]
            0 <= y < ds.len() ==> (ds[y].parent matches Some(p) ==> p < ds.len()),
    ensures
        limiting(hs, ds, x, steps) matches Some(full) ==> 0 <= full < ds.len(),
    decreases steps,
{
    if steps > 0 {
        if let Some(p) = parent_of(ds, x) {
            limiting_is_there(hs, ds, p, (steps - 1) as nat);
        }
    }
}

/// An attach keeps the agreement, whether it succeeds or fails.
pub proof fn law_an_attach_keeps_the_agreement(
    registry: PidMembershipRegistry,
    forest: Forest,
    validation: RegistryValidation,
    target: usize,
    pid: u64,
    charge_fork: bool,
)
    requires
        forest.indexed(),
        registry.refers(forest),
        agree(registry.index(), forest@),
        target < forest@.len(),
        forest@[target as int].live,
    ensures
        ({
            let after = attach_effect(
                registry.index(),
                registry.bits(),
                registry.global_limit,
                registry.per_cgroup_limit,
                validation,
                forest.hierarchies@,
                forest@,
                target,
                pid,
                charge_fork,
            );
            agree(after.0, after.2)
        }),
{
    let index = registry.index();
    let bits = registry.bits();
    let ds = forest@;
    let hs = forest.hierarchies@;
    let kept = purged(index, bits, ds);
    law_a_purge_keeps_the_agreement(index, bits, ds, pid);
    limiting_is_there(hs, ds, target as int, ds.len());
    let outcome = attach_outcome(
        index,
        bits,
        registry.global_limit,
        registry.per_cgroup_limit,
        hs,
        ds,
        target,
        pid,
        charge_fork,
    );
    let after = attach_effect(
        index,
        bits,
        registry.global_limit,
        registry.per_cgroup_limit,
        validation,
        hs,
        ds,
        target,
        pid,
        charge_fork,
    );
    if outcome == Ok::<bool, Error>(true) {
        let key = (pid, ds[target as int].hierarchy);
        let old = kept.get(key);
        let publication = bits.len() as usize;
        let dirs = moved(ds, old, target, pid, publication);
        assert forall|k: (u64, usize)| #[trigger]
            after.0.contains_key(k) && after.2[after.0[k].target as int].live implies {
            &&& after.0[k].target < after.2.len()
            &&& after.2[after.0[k].target as int].hierarchy == k.1
            &&& after.2[after.0[k].target as int].pids.get(k.0) == Some(after.0[k].publication)
        } by {
            if k != key {
                assert(kept.contains_key(k));
                assert(index.contains_key(k));
                let t = after.0[k].target as int;
                assert(dirs[t].live == ds[t].live);
                assert(after.2[t].live == dirs[t].live);
            }
        }
        assert forall|x: int, p: u64|
            0 <= x < after.2.len() && after.2[x].live && #[trigger] after.2[x].pids.contains_key(
                p,
            ) implies {
            let m = after.0[(p, after.2[x].hierarchy)];
            after.0.contains_key((p, after.2[x].hierarchy)) && m.target == x && m.publication
                == after.2[x].pids[p]
        } by {
            assert(after.2[x].pids == dirs[x].pids);
            if !(x == target && p == pid) {
                assert(ds[x].pids.contains_key(p));
                if p == pid && ds[x].hierarchy == ds[target as int].hierarchy {
                    assert(kept.contains_key(key));
                    assert(kept[key].target == x);
                    assert(false);
                }
            }
        }
    } else if outcome == Err::<bool, Error>(Error::WouldBlock) {
        law_agreement_rests_on_the_members(kept, ds, charged(hs, ds, target as int));
    }
}

/// An attach that succeeds leaves the process where it was asked for and nowhere else
/// in that hierarchy.
pub proof fn law_an_attached_process_is_in_one_place(
    registry: PidMembershipRegistry,
    forest: Forest,
    validation: RegistryValidation,
    target: usize,
    pid: u64,
    charge_fork: bool,
)
    requires
        forest.indexed(),
        registry.refers(forest),
        agree(registry.index(), forest@),
        target < forest@.len(),
        forest@[target as int].live,
        attach_outcome(
            registry.index(),
            registry.bits(),
            registry.global_limit,
            registry.per_cgroup_limit,
            forest.hierarchies@,
            forest@,
            target,
            pid,
            charge_fork,
        ) is Ok,
    ensures
        ({
            let after = attach_effect(
                registry.index(),
                registry.bits(),
                registry.global_limit,
                registry.per_cgroup_limit,
                validation,
                forest.hierarchies@,
                forest@,
                target,
                pid,
                charge_fork,
            );
            only_in(after.0, after.2, target, pid)
        }),
{
    law_an_attach_keeps_the_agreement(registry, forest, validation, target, pid, charge_fork);
    let index = registry.index();
    let bits = registry.bits();
    let ds = forest@;
    let h = ds[target as int].hierarchy;
    let after = attach_effect(
        index,
        bits,
        registry.global_limit,
        registry.per_cgroup_limit,
        validation,
        forest.hierarchies@,
        ds,
        target,
        pid,
        charge_fork,
    );
    let kept = purged(index, bits, ds);
    let outcome = attach_outcome(
        index,
        bits,
        registry.global_limit,
        registry.per_cgroup_limit,
        forest.hierarchies@,
        ds,
        target,
        pid,
        charge_fork,
    );
    if outcome == Ok::<bool, Error>(true) {
        let dirs = moved(ds, kept.get((pid, h)), target, pid, bits.len() as usize);
        assert(after.2[target as int].pids == dirs[target as int].pids);
    } else {
        assert(after.2 == ds);
        assert(kept.get((pid, h)) is Some);
    }
    assert forall|x: int|
        #![trigger after.2[x]]
        0 <= x < after.2.len() && x != target && after.2[x].live && after.2[x].hierarchy
            == h implies !after.2[x].pids.contains_key(pid) by {}
}

/// An attach that fails changes next to nothing: every membership whose directory is
/// still there stays, and so does every directory but for one count, of the limit
/// that a charged attach ran into, which goes up by one if and only if that limit is
/// why it failed.
pub proof fn law_a_failed_attach_moves_no_process(
    registry: PidMembershipRegistry,
    forest: Forest,
    validation: RegistryValidation,
    target: usize,
    pid: u64,
    charge_fork: bool,
)
    requires
        forest.indexed(),
        registry.refers(forest),
        target < forest@.len(),
        attach_outcome(
            registry.index(),
            registry.bits(),
            registry.global_limit,
            registry.per_cgroup_limit,
            forest.hierarchies@,
            forest@,
            target,
            pid,
            charge_fork,
        ) is Err,
    ensures
        ({
            let index = registry.index();
            let ds = forest@;
            let hs = forest.hierarchies@;
            let failure = attach_outcome(
                index,
                registry.bits(),
                registry.global_limit,
                registry.per_cgroup_limit,
                hs,
                ds,
                target,
                pid,
                charge_fork,
            );
            let after = attach_effect(
                index,
                registry.bits(),
                registry.global_limit,
                registry.per_cgroup_limit,
                validation,
                hs,
                ds,
                target,
                pid,
                charge_fork,
            );
            let full = limiting(hs, ds, target as int, ds.len());
            &&& after.1 == registry.bits()
            &&& forall|k: (u64, usize)| #[trigger]
                after.0.contains_key(k) ==> index.contains_key(k) && after.0[k] == index[k]
            &&& forall|k: (u64, usize)| #[trigger]
                index.contains_key(k) && ds[index[k].target as int].live ==> after.0.contains_key(
                    k,
                )
            &&& failure == Err::<bool, Error>(Error::WouldBlock) ==> charge_fork && full is Some
            &&& after.2.len() == ds.len()
            &&& forall|x: int|
                0 <= x < ds.len() ==> #[trigger] after.2[x] == (DirView {
                    pids_events_limit: if failure == Err::<bool, Error>(Error::WouldBlock) && full
                        == Some(x) {
                        (ds[x].pids_events_limit + 1) as u64
                    } else {
                        ds[x].pids_events_limit
                    },
                    ..ds[x]
                })
            &&& failure == Err::<bool, Error>(Error::WouldBlock)
                ==> ds[full->0].pids_events_limit < u64::MAX
        }),
{
    limiting_is_there(forest.hierarchies@, forest@, target as int, forest@.len());
}

/// Every membership of the child is in one of the places.
proof fn reserved_in_places(
    index: Index,
    places: Seq<(usize, usize)>,
    child: u64,
    publication: usize,
    identity: usize,
    n: nat,
    h: usize,
) -> (i: int)
    requires
        n <= places.len(),
        !is_known(index, child),
        reserved(index, places, child, publication, identity, n).contains_key((child, h)),
    ensures
        0 <= i < n,
        places[i].0 == h,
    decreases n,
{
    if n == 0 {
        assert(index.contains_key((child, h)));
        0
    } else if places[n - 1].0 == h {
        n - 1
    } else {
        reserved_in_places(index, places, child, publication, identity, (n - 1) as nat, h)
    }
}

/// Whether a directory is one of the places.
pub open spec fn is_place(places: Seq<(usize, usize)>, n: nat, x: int) -> bool {
    exists|i: int| 0 <= i < n && (#[trigger] places[i]).1 == x
}

/// Whether every place is in its directory's hierarchy, and every directory is there.
pub open spec fn places_fit(ds: Seq<DirView>, places: Seq<(usize, usize)>) -> bool {
    &&& places_differ(places)
    &&& forall|i: int|
        0 <= i < places.len() ==> (#[trigger] places[i]).1 < ds.len() && ds[places[i].1 as int].live
            && ds[places[i].1 as int].hierarchy == places[i].0
}

/// Whether the places of an admission are still held as they were reserved, and are
/// all that its child has.
pub open spec fn still_held(index: Index, ds: Seq<DirView>, admission: CgroupForkAdmission) -> bool {
    let places = admission.reservations@;
    let child = admission.child_pid;
    &&& places_fit(ds, places)
    &&& admission.publication is None ==> places.len() == 0
    &&& forall|i: int|
        0 <= i < places.len() ==> {
            let m = index[(child, (#[trigger] places[i]).0)];
            &&& index.contains_key((child, places[i].0))
            &&& m.target == places[i].1
            &&& Some(m.publication) == admission.publication
            &&& m.identity == admission.identity
        }
    &&& forall|h: usize| #[trigger]
        index.contains_key((child, h)) ==> exists|i: int|
            0 <= i < places.len() && (#[trigger] places[i]).0 == h
}

/// Preparing a fork keeps the agreement, whether it succeeds or fails, and an admission
/// holds its places.
pub proof fn law_preparing_a_fork_keeps_the_agreement(
    registry: PidMembershipRegistry,
    forest: Forest,
    places: Seq<(usize, usize)>,
    admission: CgroupForkAdmission,
)
    requires
        forest.indexed(),
        registry.refers(forest),
        agree(registry.index(), forest@),
        places_fit(forest@, places),
        admission.reservations@ == places,
        registry.bits().len() <= usize::MAX,
        places.len() > 0 ==> admission.publication == Some(registry.bits().len() as usize),
    ensures
        ({
            let child = admission.child_pid;
            let after = fork_effect(
                registry.index(),
                registry.bits(),
                registry.global_limit,
                registry.per_cgroup_limit,
                forest.hierarchies@,
                forest@,
                places,
                child,
                admission.identity,
            );
            &&& agree(after.0, after.2)
            &&& places.len() > 0 && fork_outcome(
                registry.index(),
                registry.global_limit,
                registry.per_cgroup_limit,
                forest.hierarchies@,
                forest@,
                places,
                child,
            ) is None ==> still_held(after.0, after.2, admission)
        }),
{
    let index = registry.index();
    let ds = forest@;
    let hs = forest.hierarchies@;
    let child = admission.child_pid;
    let identity = admission.identity;
    let publication = registry.bits().len() as usize;
    let why = fork_outcome(
        index,
        registry.global_limit,
        registry.per_cgroup_limit,
        hs,
        ds,
        places,
        child,
    );
    if why == Some(Error::WouldBlock) {
        fork_crowded_never_blocks(ds, places, child, registry.per_cgroup_limit, 0);
        refusal_is_there(hs, ds, places, 0);
        let at = (fork_refusal(hs, ds, places, 0)->0).1;
        limiting_is_there(hs, ds, at, ds.len());
        law_agreement_rests_on_the_members(index, ds, charged(hs, ds, at));
    } else if why is None && places.len() > 0 {
        let indexed = reserved(index, places, child, publication, identity, places.len());
        let dirs = hidden(ds, places, child, publication, places.len());
        reserved_at(index, places, child, publication, identity, places.len());
        assert forall|x: int| 0 <= x < ds.len() implies dirs.len() == ds.len() && (
        #[trigger] dirs[x]) == (if is_place(places, places.len(), x) {
            DirView { pids: ds[x].pids.insert(child, publication), ..ds[x] }
        } else {
            ds[x]
        }) by {
            hidden_at(ds, places, child, publication, places.len(), x);
        }
        hidden_at(ds, places, child, publication, places.len(), places[0].1 as int);
        assert forall|h: usize| #[trigger] indexed.contains_key((child, h)) implies exists|i: int|
            0 <= i < places.len() && (#[trigger] places[i]).0 == h by {
            let i = reserved_in_places(
                index,
                places,
                child,
                publication,
                identity,
                places.len(),
                h,
            );
            assert(places[i].0 == h);
        }
        assert forall|k: (u64, usize)| #[trigger]
            indexed.contains_key(k) && dirs[indexed[k].target as int].live implies {
            &&& indexed[k].target < dirs.len()
            &&& dirs[indexed[k].target as int].hierarchy == k.1
            &&& dirs[indexed[k].target as int].pids.get(k.0) == Some(indexed[k].publication)
        } by {
            if k.0 == child {
                assert(indexed.contains_key((child, k.1)));
                let i = choose|i: int| 0 <= i < places.len() && (#[trigger] places[i]).0 == k.1;
                assert(indexed[(child, places[i].0)].target == places[i].1);
                assert(is_place(places, places.len(), places[i].1 as int));
            } else {
                assert(index.contains_key(k));
            }
        }
        assert forall|x: int, p: u64|
            0 <= x < dirs.len() && dirs[x].live && #[trigger] dirs[x].pids.contains_key(
                p,
            ) implies {
            let m = indexed[(p, dirs[x].hierarchy)];
            indexed.contains_key((p, dirs[x].hierarchy)) && m.target == x && m.publication
                == dirs[x].pids[p]
        } by {
            if p == child {
                if is_place(places, places.len(), x) {
                    let i = choose|i: int| 0 <= i < places.len() && (#[trigger] places[i]).1 == x;
                    assert(indexed.contains_key((child, places[i].0)));
                } else {
                    assert(ds[x].pids.contains_key(child));
                    assert(index.contains_key((child, ds[x].hierarchy)));
                }
            } else {
                assert(ds[x].pids.contains_key(p));
                assert(index.contains_key((p, ds[x].hierarchy)));
                assert(indexed.contains_key((p, ds[x].hierarchy)));
            }
        }
        assert(places_fit(dirs, places)) by {
            assert forall|i: int| 0 <= i < places.len() implies (#[trigger] places[i]).1
                < dirs.len() && dirs[places[i].1 as int].live && dirs[places[i].1 as int].hierarchy
                == places[i].0 by {
                assert(dirs[places[i].1 as int].live == ds[places[i].1 as int].live);
            }
        }
    }
}

/// The directory that refuses a fork is one of the places.
proof fn refusal_is_there(
    hs: Seq<Hierarchy>,
    ds: Seq<DirView>,
    places: Seq<(usize, usize)>,
    i: nat,
)
    requires
        forall|j: int| 0 <= j < places.len() ==> (#[trigger] places[j]).1 < ds.len(),
    ensures
        fork_refusal(hs, ds, places, i) matches Some(why) ==> {
            &&& 0 <= why.1 < ds.len()
            &&& why.0 == Error::WouldBlock ==> limiting(hs, ds, why.1, ds.len()) is Some
        },
    decreases places.len() - i,
{
    if i < places.len() {
        assert(places[i as int].1 < ds.len());
        refusal_is_there(hs, ds, places, i + 1);
    }
}

proof fn fork_crowded_never_blocks(
    ds: Seq<DirView>,
    places: Seq<(usize, usize)>,
    child: u64,
    per_cgroup_limit: usize,
    i: nat,
)
    ensures
        fork_crowded(ds, places, child, per_cgroup_limit, i) != Some(
            Error::WouldBlock,
        ),
    decreases places.len() - i,
{
    if i < places.len() {
        fork_crowded_never_blocks(ds, places, child, per_cgroup_limit, i + 1);
    }
}

proof fn peaks_keep_members(
    index: Index,
    bits: Seq<bool>,
    validation: RegistryValidation,
    hs: Seq<Hierarchy>,
    ds: Seq<DirView>,
    places: Seq<(usize, usize)>,
    n: nat,
)
    ensures
        same_members(ds, pending_peaks(index, bits, validation, hs, ds, places, n)),
    decreases n,
{
    if n > 0 {
        peaks_keep_members(index, bits, validation, hs, ds, places, (n - 1) as nat);
        let before = pending_peaks(index, bits, validation, hs, ds, places, (n - 1) as nat);
        let after = pending_peaks(index, bits, validation, hs, ds, places, n);
        assert forall|x: int|
            #![trigger after[x]]
            0 <= x < ds.len() implies after[x].pids == ds[x].pids && after[x].live == ds[x].live
            && after[x].hierarchy == ds[x].hierarchy by {
            assert(before[x].pids == ds[x].pids);
        }
    }
}

/// Committing a fork keeps the agreement: it binds the child's memberships, raises
/// peaks and sets one publication bit.
pub proof fn law_a_commit_keeps_the_agreement(
    index: Index,
    bits: Seq<bool>,
    validation: RegistryValidation,
    hs: Seq<Hierarchy>,
    ds: Seq<DirView>,
    admission: CgroupForkAdmission,
    process: Option<(usize, usize)>,
    gone: Seq<usize>,
)
    requires
        agree(index, ds),
        leads(index, ds),
    ensures
        ({
            let places = admission.reservations@;
            let after = if places.len() > 0 && process is Some {
                bound(index, admission.child_pid, (process->0).0, (process->0).1, gone)
            } else {
                index
            };
            agree(after, pending_peaks(after, bits, validation, hs, ds, places, places.len()))
        }),
{
    let places = admission.reservations@;
    let child = admission.child_pid;
    let after = if places.len() > 0 && process is Some {
        bound(index, child, (process->0).0, (process->0).1, gone)
    } else {
        index
    };
    if process is Some {
        law_binding_keeps_the_agreement(index, ds, child, (process->0).0, (process->0).1, gone);
    }
    assert(leads(after, ds)) by {
        assert forall|k: (u64, usize)| #[trigger] after.contains_key(k) implies after[k].target
            < ds.len() by {
            assert(index.contains_key(k));
        }
    }
    peaks_keep_members(after, bits, validation, hs, ds, places, places.len());
    law_agreement_rests_on_the_members(
        after,
        ds,
        pending_peaks(after, bits, validation, hs, ds, places, places.len()),
    );
}

/// Places that are still held are all given back.
proof fn held_places_are_given_back(
    index: Index,
    ds: Seq<DirView>,
    admission: CgroupForkAdmission,
    n: nat,
)
    requires
        agree(index, ds),
        still_held(index, ds, admission),
        admission.publication is Some,
        n <= admission.reservations@.len(),
    ensures
        ({
            let places = admission.reservations@;
            let child = admission.child_pid;
            let (back, exact) = given_back(
                index,
                ds,
                places,
                child,
                admission.publication->0,
                admission.identity,
                n,
            );
            &&& exact
            &&& back.len() == ds.len()
            &&& forall|x: int|
                0 <= x < ds.len() ==> #[trigger] back[x] == (if is_place(places, n, x) {
                    DirView { pids: ds[x].pids.remove(child), ..ds[x] }
                } else {
                    ds[x]
                })
        }),
    decreases n,
{
    let places = admission.reservations@;
    let child = admission.child_pid;
    if n > 0 {
        held_places_are_given_back(index, ds, admission, (n - 1) as nat);
        let target = places[n - 1].1 as int;
        assert(index.contains_key((child, places[n - 1].0)));
        assert(!is_place(places, (n - 1) as nat, target));
        let (back, exact) = given_back(
            index,
            ds,
            places,
            child,
            admission.publication->0,
            admission.identity,
            n,
        );
        assert forall|x: int| 0 <= x < ds.len() implies #[trigger] back[x] == (if is_place(
            places,
            n,
            x,
        ) {
            DirView { pids: ds[x].pids.remove(child), ..ds[x] }
        } else {
            ds[x]
        }) by {
            if x == target {
                assert(places[n - 1].1 == x);
                assert(is_place(places, n, x));
            } else if is_place(places, n, x) {
                let i = choose|i: int| 0 <= i < n && (#[trigger] places[i]).1 == x;
                assert(0 <= i < n - 1);
                assert(is_place(places, (n - 1) as nat, x));
            } else if is_place(places, (n - 1) as nat, x) {
                let i = choose|i: int| 0 <= i < n - 1 && (#[trigger] places[i]).1 == x;
                assert(places[i].1 == x);
                assert(is_place(places, n, x));
            }
        }
    }
}

/// Rolling a fork back keeps the agreement, as long as its places are still held.
pub proof fn law_a_rollback_keeps_the_agreement(
    index: Index,
    ds: Seq<DirView>,
    admission: CgroupForkAdmission,
)
    requires
        agree(index, ds),
        leads(index, ds),
        admission.committed || still_held(index, ds, admission),
    ensures
        ({
            let after = rollback_effect(index, ds, admission);
            agree(after.0, after.1)
        }),
{
    let child = admission.child_pid;
    let places = admission.reservations@;
    if !admission.committed && admission.publication is Some && is_known(index, child) {
        held_places_are_given_back(index, ds, admission, places.len());
        let (rest, back) = rollback_effect(index, ds, admission);
        assert(rest == without(index, child));
        assert forall|k: (u64, usize)| #[trigger]
            rest.contains_key(k) && back[rest[k].target as int].live implies {
            &&& rest[k].target < back.len()
            &&& back[rest[k].target as int].hierarchy == k.1
            &&& back[rest[k].target as int].pids.get(k.0) == Some(rest[k].publication)
        } by {
            assert(index.contains_key(k));
            assert(back[rest[k].target as int].live == ds[rest[k].target as int].live);
        }
        assert forall|x: int, p: u64|
            0 <= x < back.len() && back[x].live && #[trigger] back[x].pids.contains_key(
                p,
            ) implies {
            let m = rest[(p, back[x].hierarchy)];
            rest.contains_key((p, back[x].hierarchy)) && m.target == x && m.publication
                == back[x].pids[p]
        } by {
            assert(ds[x].pids.contains_key(p));
            let h = ds[x].hierarchy;
            assert(index.contains_key((p, h)));
            if p == child {
                let i = choose|i: int| 0 <= i < places.len() && (#[trigger] places[i]).0 == h;
                assert(places[i].1 == x);
                assert(is_place(places, places.len(), x));
            }
        }
    }
}

} // verus!
