//! What holds of names and memberships across operations.

use vstd::prelude::*;
use vstd::set_lib::{lemma_int_range, lemma_len_subset, set_int_range};
use crate::cgroup::admission::{given_back, hidden, is_known, reserved, rollback_effect, without,
    CgroupForkAdmission};
use crate::cgroup::collections::Membership;
use crate::cgroup::forest::{below, chain, depth, ends, parent_of, reaches, version, walk_ends,
    CgroupVersion, DirView, Forest, Hierarchy, NodeMetadata, MAX_CGROUP_DEPTH};
use crate::cgroup::namespace::{epoch_after, fresh, Entry};
use crate::cgroup::registry::{accepts, attach_effect, attach_outcome, is_current, live_members,
    moved, peaked, purged, Index, RegistryValidation};
use crate::cgroup::rename::{rename_outcome, renamed};
use crate::cgroup::tree::{ends_at_depth, looked_up, not_its_own_parent, published, unlink_error,
    unlinked, walk_settles};
use crate::error::Error;

verus! {

/// A directory that was made is what its name leads to, and its parent's table is
/// seen to have changed.
pub proof fn law_a_new_directory_is_found(
    hs: Seq<Hierarchy>,
    ds: Seq<DirView>,
    p: int,
    name: Seq<u8>,
    hierarchy: usize,
    first_inode: u64,
    metadata: NodeMetadata,
    now: u64,
)
    requires
        0 <= p < ds.len() < usize::MAX,
    ensures
        ({
            let made = fresh(hierarchy, first_inode, Some(p as usize), false, metadata);
            let after = published(ds.push(made), p, name, ds.len() as usize, now);
            &&& looked_up(hs, after, p, name) == Some(Entry::Dir(ds.len() as usize))
            &&& after[p].namespace_epoch == epoch_after(ds[p].namespace_epoch)
            &&& after[ds.len() as int].parent == Some(p as usize)
            &&& after[ds.len() as int].linked
        }),
{
}

/// A directory that was removed is no longer found.
pub proof fn law_a_removed_directory_is_not_found(
    forest: Forest,
    p: int,
    name: Seq<u8>,
    expected: Option<Entry>,
    now: u64,
)
    requires
        forest.wf(),
        0 <= p < forest@.len(),
        unlink_error(forest@, p, name, expected, true) is None,
    ensures
        looked_up(forest.hierarchies@, unlinked(forest@, p, name, now), p, name) is None,
        unlinked(forest@, p, name, now)[p].namespace_epoch == epoch_after(
            forest@[p].namespace_epoch,
        ),
{
    assert(forest@[p].children.contains_key(name));
    not_its_own_parent(forest@, p, name);
}

/// A rename keeps a directory's identity, its members and everything below it: only
/// its name and its parent change.  The new name leads to it and the old one does
/// not, and the times of the directory and of both parents are one and the same.
pub proof fn law_a_renamed_directory_keeps_its_identity(
    forest: Forest,
    held: bool,
    from: int,
    src_name: Seq<u8>,
    src: Entry,
    to: int,
    dst_name: Seq<u8>,
    dst: Option<Entry>,
    now: u64,
)
    requires
        forest.wf(),
        0 <= from < forest@.len(),
        0 <= to < forest@.len(),
        rename_outcome(
            forest.hierarchies@,
            forest@,
            held,
            from,
            src_name,
            src,
            to,
            dst_name,
            dst,
        ) == Ok::<bool, Error>(true),
    ensures
        ({
            let ds = forest@;
            let c = ds[from].children[src_name] as int;
            let after = renamed(ds, from, src_name, to, dst_name, now);
            &&& after[c] == (DirView {
                parent: Some(to as usize),
                name: dst_name,
                metadata: NodeMetadata { ctime: now, ..ds[c].metadata },
                ..ds[c]
            })
            &&& looked_up(forest.hierarchies@, after, to, dst_name) == Some(Entry::Dir(c as usize))
            &&& looked_up(forest.hierarchies@, after, from, src_name) is None
            &&& after[from].metadata.mtime == now && after[from].metadata.ctime == now
            &&& after[to].metadata.mtime == now && after[to].metadata.ctime == now
            &&& after[from].namespace_epoch == epoch_after(ds[from].namespace_epoch)
            &&& after[to].namespace_epoch == epoch_after(ds[to].namespace_epoch)
        }),
{
    let ds = forest@;
    assert(ds[from].children.contains_key(src_name));
    not_its_own_parent(ds, from, src_name);
    let c = ds[from].children[src_name] as int;
    if from != to {
        assert(!reaches(ds, to, c, 256));
    }
}

/// What a rename within one hierarchy is refused for, and what it leaves alone.  In
/// a version-two hierarchy nothing is renamed.  In a version-one hierarchy a
/// directory is not renamed onto another one, nor is what its name does not lead to,
/// and a rename onto itself succeeds and changes nothing.  Between two directories
/// what is said of success, and of the reason, rests on the entry of the first being
/// held.
pub proof fn law_a_rename_replaces_nothing(
    forest: Forest,
    held: bool,
    from: int,
    src_name: Seq<u8>,
    src: Entry,
    to: int,
    dst_name: Seq<u8>,
    dst: Option<Entry>,
)
    requires
        forest.wf(),
        0 <= from < forest@.len(),
        0 <= to < forest@.len(),
        forest@[from].hierarchy == forest@[to].hierarchy,
    ensures
        ({
            let ds = forest@;
            let outcome = rename_outcome(
                forest.hierarchies@,
                ds,
                held,
                from,
                src_name,
                src,
                to,
                dst_name,
                dst,
            );
            let names_it = ds[from].children.contains_key(src_name) && src == Entry::Dir(
                ds[from].children[src_name],
            );
            let there = ds[to].children.contains_key(dst_name) && dst == Some(
                Entry::Dir(ds[to].children[dst_name]),
            );
            let itself = ds[to].children[dst_name] == ds[from].children[src_name];
            if version(forest.hierarchies@, ds, from) != CgroupVersion::V1 {
                outcome == Err::<bool, Error>(Error::OperationNotPermitted)
            } else {
                &&& !names_it ==> outcome is Err
                &&& names_it && there && !itself ==> outcome is Err && (held || from == to
                    ==> outcome == Err::<bool, Error>(Error::AlreadyExists))
                &&& names_it && there && itself && (held || from == to) ==> outcome == Ok::<
                    bool,
                    Error,
                >(false)
            }
        }),
{
}

/// A process that was attached to a directory is a visible member of it.
pub proof fn law_an_attached_process_is_a_member(
    index: Index,
    bits: Seq<bool>,
    global_limit: usize,
    per_cgroup_limit: usize,
    hs: Seq<Hierarchy>,
    ds: Seq<DirView>,
    target: usize,
    pid: u64,
    charge_fork: bool,
)
    requires
        target < ds.len(),
        ds[target as int].hierarchy < hs.len(),
        bits.len() < usize::MAX,
        forall|k: (u64, usize)| #[trigger]
            index.contains_key(k) ==> index[k].target < ds.len(),
        attach_outcome(
            index,
            bits,
            global_limit,
            per_cgroup_limit,
            hs,
            ds,
            target,
            pid,
            charge_fork,
        ) == Ok::<bool, Error>(true),
    ensures
        ({
            let after = attach_effect(
                index,
                bits,
                global_limit,
                per_cgroup_limit,
                RegistryValidation::SyntheticLocal,
                hs,
                ds,
                target,
                pid,
                charge_fork,
            );
            live_members(
                after.0,
                after.1,
                hs.len(),
                RegistryValidation::SyntheticLocal,
                after.2[target as int],
            ).contains(pid)
        }),
{
    let after = attach_effect(
        index,
        bits,
        global_limit,
        per_cgroup_limit,
        RegistryValidation::SyntheticLocal,
        hs,
        ds,
        target,
        pid,
        charge_fork,
    );
    let h = ds[target as int].hierarchy;
    assert(after.0.contains_key((pid, h)));
    let publication = bits.len() as usize;
    let old = purged(index, bits, ds).get((pid, h));
    let dirs = moved(ds, old, target, pid, publication);
    assert(dirs[target as int].pids.contains_key(pid));
    assert(after.2[target as int].pids == dirs[target as int].pids);
    assert(after.1[publication as int]);
    assert(after.0[(pid, h)].publication == publication);
    assert(accepts(RegistryValidation::SyntheticLocal, pid, after.0[(pid, h)]));
    assert(is_current(
        after.0,
        after.1,
        hs.len(),
        RegistryValidation::SyntheticLocal,
        pid,
        publication,
    ));
}

/// Places in different directories and hierarchies.
pub open spec fn places_differ(places: Seq<(usize, usize)>) -> bool {
    forall|i: int, j: int|
        0 <= i < j < places.len() ==> (#[trigger] places[i]).0 != (#[trigger] places[j]).0
            && places[i].1 != places[j].1
}

/// What a reservation of the first `n` places does to one directory.
pub(crate) proof fn hidden_at(
    ds: Seq<DirView>,
    places: Seq<(usize, usize)>,
    child: u64,
    publication: usize,
    n: nat,
    x: int,
)
    requires
        n <= places.len(),
        places_differ(places),
        forall|i: int| 0 <= i < places.len() ==> (#[trigger] places[i]).1 < ds.len(),
        0 <= x < ds.len(),
    ensures
        hidden(ds, places, child, publication, n).len() == ds.len(),
        (exists|i: int| 0 <= i < n && (#[trigger] places[i]).1 == x) ==> hidden(
            ds,
            places,
            child,
            publication,
            n,
        )[x] == (DirView { pids: ds[x].pids.insert(child, publication), ..ds[x] }),
        !(exists|i: int| 0 <= i < n && (#[trigger] places[i]).1 == x) ==> hidden(
            ds,
            places,
            child,
            publication,
            n,
        )[x] == ds[x],
    decreases n,
{
    if n > 0 {
        hidden_at(ds, places, child, publication, (n - 1) as nat, x);
        if places[n - 1].1 == x {
            assert(!(exists|i: int| 0 <= i < n - 1 && (#[trigger] places[i]).1 == x));
        }
        if exists|i: int| 0 <= i < n && (#[trigger] places[i]).1 == x {
            let i = choose|i: int| 0 <= i < n && (#[trigger] places[i]).1 == x;
            assert(i == n - 1 || 0 <= i < n - 1);
        }
    }
}

/// What a reservation of the first `n` places does to the index.
pub(crate) proof fn reserved_at(
    index: Index,
    places: Seq<(usize, usize)>,
    child: u64,
    publication: usize,
    identity: usize,
    n: nat,
)
    requires
        n <= places.len(),
        places_differ(places),
    ensures
        ({
            let after = reserved(index, places, child, publication, identity, n);
            &&& forall|k: (u64, usize)|
                k.0 != child ==> (#[trigger] after.contains_key(k) == index.contains_key(k)) && (
                index.contains_key(k) ==> after[k] == index[k])
            &&& forall|i: int|
                0 <= i < n ==> after.contains_key((child, (#[trigger] places[i]).0)) && after[(
                    child,
                    places[i].0,
                )] == (Membership {
                    target: places[i].1,
                    publication,
                    identity,
                    process: 0,
                })
        }),
    decreases n,
{
    if n > 0 {
        reserved_at(index, places, child, publication, identity, (n - 1) as nat);
        let before = reserved(index, places, child, publication, identity, (n - 1) as nat);
        let after = reserved(index, places, child, publication, identity, n);
        assert forall|k: (u64, usize)| k.0 != child implies (#[trigger] after.contains_key(k)
            == index.contains_key(k)) && (index.contains_key(k) ==> after[k] == index[k]) by {
            assert(before.contains_key(k) == index.contains_key(k));
        }
        assert forall|i: int| 0 <= i < n implies after.contains_key(
            (child, (#[trigger] places[i]).0),
        ) && after[(child, places[i].0)] == (Membership {
            target: places[i].1,
            publication,
            identity,
            process: 0,
        }) by {
            if i < n - 1 {
                assert(before.contains_key((child, places[i].0)));
                assert(places[i].0 != places[n - 1].0);
            }
        }
    }
}

/// A fork that was prepared and then rolled back leaves no trace: both indexes are
/// what they were before it.
pub proof fn law_a_rolled_back_fork_leaves_no_trace(
    index: Index,
    ds: Seq<DirView>,
    places: Seq<(usize, usize)>,
    admission: CgroupForkAdmission,
)
    requires
        places.len() > 0,
        places_differ(places),
        forall|i: int| 0 <= i < places.len() ==> (#[trigger] places[i]).1 < ds.len(),
        !is_known(index, admission.child_pid),
        forall|i: int|
            0 <= i < places.len() ==> !ds[(#[trigger] places[i]).1 as int].pids.contains_key(
                admission.child_pid,
            ),
        admission.reservations@ == places,
        admission.publication is Some,
        !admission.committed,
    ensures
        rollback_effect(
            reserved(
                index,
                places,
                admission.child_pid,
                admission.publication->0,
                admission.identity,
                places.len(),
            ),
            hidden(ds, places, admission.child_pid, admission.publication->0, places.len()),
            admission,
        ) == (index, ds),
{
    let child = admission.child_pid;
    let publication = admission.publication->0;
    let identity = admission.identity;
    let indexed = reserved(index, places, child, publication, identity, places.len());
    let dirs = hidden(ds, places, child, publication, places.len());
    reserved_at(index, places, child, publication, identity, places.len());
    assert(indexed.contains_key((child, places[0].0)));
    assert(is_known(indexed, child));
    gives_back(index, ds, places, child, publication, identity, places.len());
    let (back, exact) = given_back(
        indexed,
        dirs,
        places,
        child,
        publication,
        identity,
        places.len(),
    );
    assert(exact);
    assert forall|x: int| 0 <= x < ds.len() implies back[x] == ds[x] by {
        hidden_at(ds, places, child, publication, places.len(), x);
        if exists|i: int| 0 <= i < places.len() && (#[trigger] places[i]).1 == x {
            assert(ds[x].pids.insert(child, publication).remove(child) =~= ds[x].pids);
        }
    }
    assert(back.len() == ds.len()) by {
        hidden_at(ds, places, child, publication, places.len(), places[0].1 as int);
    }
    assert(back =~= ds);
    assert(without(indexed, child) =~= index) by {
        assert forall|k: (u64, usize)| without(indexed, child).contains_key(k)
            == index.contains_key(k) by {
            if k.0 == child {
                let (p, h) = k;
                assert(!index.contains_key((child, h)));
            }
        }
    }
}

/// The first `n` places are given back, and no other.
proof fn gives_back(
    index: Index,
    ds: Seq<DirView>,
    places: Seq<(usize, usize)>,
    child: u64,
    publication: usize,
    identity: usize,
    n: nat,
)
    requires
        n <= places.len(),
        places_differ(places),
        forall|i: int| 0 <= i < places.len() ==> (#[trigger] places[i]).1 < ds.len(),
    ensures
        ({
            let dirs = hidden(ds, places, child, publication, places.len());
            let (back, exact) = given_back(
                reserved(index, places, child, publication, identity, places.len()),
                dirs,
                places,
                child,
                publication,
                identity,
                n,
            );
            &&& exact
            &&& back.len() == dirs.len()
            &&& forall|x: int|
                0 <= x < ds.len() ==> #[trigger] back[x] == (if exists|i: int|
                    0 <= i < n && (#[trigger] places[i]).1 == x {
                    DirView { pids: dirs[x].pids.remove(child), ..dirs[x] }
                } else {
                    dirs[x]
                })
        }),
    decreases n,
{
    let dirs = hidden(ds, places, child, publication, places.len());
    reserved_at(index, places, child, publication, identity, places.len());
    if n > 0 {
        gives_back(index, ds, places, child, publication, identity, (n - 1) as nat);
        let target = places[n - 1].1 as int;
        hidden_at(ds, places, child, publication, places.len(), target);
        assert(!(exists|i: int| 0 <= i < n - 1 && (#[trigger] places[i]).1 == target));
        let (back, exact) = given_back(
            reserved(index, places, child, publication, identity, places.len()),
            dirs,
            places,
            child,
            publication,
            identity,
            n,
        );
        assert forall|x: int| 0 <= x < ds.len() implies #[trigger] back[x] == (if exists|i: int|
            0 <= i < n && (#[trigger] places[i]).1 == x {
            DirView { pids: dirs[x].pids.remove(child), ..dirs[x] }
        } else {
            dirs[x]
        }) by {
            if x == target {
                assert(places[n - 1].1 == x);
            } else if exists|i: int| 0 <= i < n && (#[trigger] places[i]).1 == x {
                let i = choose|i: int| 0 <= i < n && (#[trigger] places[i]).1 == x;
                assert(0 <= i < n - 1);
            }
        }
    }
}

/// A child whose fork was prepared cannot be seen in any directory until the fork
/// commits.
pub proof fn law_a_prepared_child_is_not_a_member(
    index: Index,
    bits: Seq<bool>,
    hierarchies: nat,
    validation: RegistryValidation,
    ds: Seq<DirView>,
    places: Seq<(usize, usize)>,
    child: u64,
    identity: usize,
    x: int,
)
    requires
        places_differ(places),
        forall|i: int| 0 <= i < places.len() ==> (#[trigger] places[i]).1 < ds.len(),
        !is_known(index, child),
        0 <= x < ds.len(),
        bits.len() < usize::MAX,
        ds[x].pids.contains_key(child) ==> ds[x].pids[child] < bits.len(),
    ensures
        !live_members(
            reserved(index, places, child, bits.len() as usize, identity, places.len()),
            bits.push(false),
            hierarchies,
            validation,
            hidden(ds, places, child, bits.len() as usize, places.len())[x],
        ).contains(child),
{
    let publication = bits.len() as usize;
    let indexed = reserved(index, places, child, publication, identity, places.len());
    hidden_at(ds, places, child, publication, places.len(), x);
    only_reserved(index, places, child, publication, identity, places.len());
    let dir = hidden(ds, places, child, publication, places.len())[x];
    if dir.pids.contains_key(child) && is_current(
        indexed,
        bits.push(false),
        hierarchies,
        validation,
        child,
        dir.pids[child],
    ) {
        let h = choose|h: usize|
            h < hierarchies && #[trigger] indexed.contains_key((child, h)) && indexed[(
                child,
                h,
            )].publication == dir.pids[child] && accepts(
                validation,
                child,
                indexed[(child, h)],
            );
        assert(!index.contains_key((child, h)));
        assert(indexed[(child, h)].publication == publication);
        assert(false);
    }
}

/// Every membership of the child is one that the fork reserved.
proof fn only_reserved(
    index: Index,
    places: Seq<(usize, usize)>,
    child: u64,
    publication: usize,
    identity: usize,
    n: nat,
)
    requires
        n <= places.len(),
        !is_known(index, child),
    ensures
        forall|h: usize| #[trigger]
            reserved(index, places, child, publication, identity, n).contains_key((child, h))
                ==> reserved(index, places, child, publication, identity, n)[(
                child,
                h,
            )].publication == publication,
    decreases n,
{
    if n > 0 {
        only_reserved(index, places, child, publication, identity, (n - 1) as nat);
        let before = reserved(index, places, child, publication, identity, (n - 1) as nat);
        let after = reserved(index, places, child, publication, identity, n);
        assert forall|h: usize| #[trigger] after.contains_key((child, h)) implies after[(
            child,
            h,
        )].publication == publication by {
            if h != places[n - 1].0 {
                assert(before.contains_key((child, h)));
            }
        }
    } else {
        assert forall|h: usize| #[trigger] index.contains_key((child, h)) implies false by {}
    }
}

/// A pids peak never falls.
pub proof fn law_peaks_never_fall(
    index: Index,
    bits: Seq<bool>,
    validation: RegistryValidation,
    hs: Seq<Hierarchy>,
    ds: Seq<DirView>,
    target: int,
    extra: nat,
    x: int,
)
    requires
        0 <= x < ds.len(),
    ensures
        peaked(index, bits, validation, hs, ds, target, extra)[x].pids_peak >= ds[x].pids_peak,
{
}

/// What is found below a root has a walk that ends within the admitted depth.
pub proof fn law_the_depth_stays_bounded(forest: Forest, x: int, root: int, steps: nat)
    requires
        forest.wf(),
        0 <= x < forest@.len(),
        below(forest@, x, root, steps),
        parent_of(forest@, root) is None,
    ensures
        ends(forest@, x, 257),
        depth(forest@, x, 257) <= MAX_CGROUP_DEPTH,
{
    found_ends(forest@, x, root, 257);
    ends_at_depth(forest@, x, 257);
}

proof fn found_ends(ds: Seq<DirView>, x: int, root: int, k: nat)
    requires
        below(ds, x, root, k),
        parent_of(ds, root) is None,
    ensures
        ends(ds, x, k),
    decreases k,
{
    if x != root {
        if let Some(p) = parent_of(ds, x) {
            found_ends(ds, p, root, (k - 1) as nat);
        }
    }
}

/// Every walk up ends within as many steps as there are directories: what is said of
/// the directories above one is said of all of them.
pub proof fn law_a_walk_meets_no_directory_twice(forest: Forest, x: int)
    requires
        forest.wf(),
        0 <= x < forest@.len(),
    ensures
        chain(forest@, x, forest@.len()).no_duplicates(),
        ends(forest@, x, forest@.len()),
{
    let ds = forest@;
    assert(walk_ends(ds, x));
    let steps = choose|steps: nat| #[trigger] ends(ds, x, steps);
    chain_is_distinct(ds, x, steps);
    let walk = chain(ds, x, steps);
    walk.unique_seq_to_set();
    let all = set_int_range(0, ds.len() as int);
    lemma_int_range(0, ds.len() as int);
    assert(walk.to_set().subset_of(all)) by {
        assert forall|y: int| walk.to_set().contains(y) implies all.contains(y) by {
            let i = choose|i: int| 0 <= i < walk.len() && walk[i] == y;
        }
    }
    lemma_len_subset(walk.to_set(), all);
    ends_at_depth(ds, x, steps);
    walk_settles(ds, x, (depth(ds, x, steps) + 1) as nat, ds.len());
    chain_is_distinct(ds, x, ds.len());
}

proof fn chain_is_distinct(ds: Seq<DirView>, x: int, k: nat)
    requires
        0 <= x < ds.len(),
        forall|y: int|
            #![trigger ds[y]]
            0 <= y < ds.len() ==> (ds[y].parent matches Some(p) ==> p < ds.len()),
        ends(ds, x, k),
    ensures
        chain(ds, x, k).no_duplicates(),
        chain(ds, x, k).len() == depth(ds, x, k) + 1,
        forall|i: int|
            0 <= i < chain(ds, x, k).len() ==> 0 <= #[trigger] chain(ds, x, k)[i] < ds.len()
                && reaches(ds, x, chain(ds, x, k)[i], k),
    decreases k,
{
    let walk = chain(ds, x, k);
    if let Some(p) = parent_of(ds, x) {
        let rest = chain(ds, p, (k - 1) as nat);
        chain_is_distinct(ds, p, (k - 1) as nat);
        assert(walk =~= seq![x] + rest);
        assert forall|i: int| 0 <= i < walk.len() implies 0 <= #[trigger] walk[i] < ds.len()
            && reaches(ds, x, walk[i], k) by {
            if i > 0 {
                assert(walk[i] == rest[i - 1]);
            }
        }
        assert forall|i: int, j: int| 0 <= i < j < walk.len() implies walk[i] != walk[j] by {
            assert(walk[j] == rest[j - 1]);
            if i > 0 {
                assert(walk[i] == rest[i - 1]);
            } else if rest[j - 1] == x {
                reached_is_higher(ds, p, x, (k - 1) as nat, (k - 1) as nat);
                walk_settles(ds, x, (k - 1) as nat, k);
            }
        }
    }
}

proof fn reached_is_higher(ds: Seq<DirView>, x: int, a: int, k: nat, m: nat)
    requires
        reaches(ds, x, a, k),
        ends(ds, x, m),
    ensures
        ends(ds, a, m),
        depth(ds, a, m) <= depth(ds, x, m),
    decreases k,
{
    if x != a {
        if let Some(p) = parent_of(ds, x) {
            reached_is_higher(ds, p, a, (k - 1) as nat, (m - 1) as nat);
            walk_settles(ds, a, (m - 1) as nat, m);
        }
    }
}

} // verus!
