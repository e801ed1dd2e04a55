//! What is found where: names in directories, identities, memberships, and the clamps that go with
//! them.

use vstd::prelude::*;
use vstd::utf8::encode_utf8;
use crate::cgroup::collections::inode_set;
use crate::cgroup::files::{control_files, name_of, named, visible, ControlFile};
use crate::cgroup::forest::{chain, depth, effective_clamp, ends, parent_of, updated, version,
    CgroupVersion, DirView, Forest, Hierarchy, MetadataUpdate, NodeMetadata};
use crate::cgroup::identity::identities_above;
use crate::cgroup::listing::{listed_files, listing, Listed};
use crate::cgroup::lookup::{admits, bound, forgotten, seen, targets, v2_membership};
use crate::cgroup::namespace::{epoch_after, find_hierarchy, fresh, names, room_error, Entry};
use crate::cgroup::nodes::{file_changed, file_number};
use crate::cgroup::registry::Index;
use crate::cgroup::transfer::elsewhere;
use crate::cgroup::tree::{create_check, published, unlink_error, unlinked, NamedCreateOptions};
use crate::cgroup::uclamp::{constraints_in, controls_after, drained, graver, is_newer,
    published as ticket, task_republished, ClampControl, SchedUtilClampControls, TaskSchedError,
    UclampPolicy, UclampReconcileDrain, UclampReconcileFailure};
use crate::error::Error;

verus! {

/// A listing starts with the directory itself and its parent, which is itself for a root; then come
/// the directories in it, each under its own name and identity; then its control files.
pub proof fn law_a_listing_has_its_parts_in_order(
    hs: Seq<Hierarchy>,
    ds: Seq<DirView>,
    p: int,
    order: Seq<usize>,
    i: int,
)
    requires
        0 <= i < order.len(),
    ensures
        ({
            let all = listing(hs, ds, p, order);
            let files = listed_files(hs, ds, p, 14);
            &&& all.len() == 2 + order.len() + files.len()
            &&& all[0].name == seq![46u8] && all[0].inode == ds[p].inode && all[0].directory
            &&& all[1].name == seq![46u8, 46u8] && all[1].directory
            &&& parent_of(ds, p) is None ==> all[1].inode == ds[p].inode
            &&& parent_of(ds, p) matches Some(q) ==> all[1].inode == ds[q].inode
            &&& all[2 + i].name == ds[order[i] as int].name
            &&& all[2 + i].inode == ds[order[i] as int].inode
            &&& all[2 + i].directory
            &&& all.subrange(2 + order.len() as int, all.len() as int) == files
        }),
{
    let all = listing(hs, ds, p, order);
    let files = listed_files(hs, ds, p, 14);
    assert(all.subrange(2 + order.len() as int, all.len() as int) =~= files);
}

/// A listing has exactly those of a directory's control files that it shows, each with the identity
/// of its own number.
pub proof fn law_exactly_the_shown_files_are_listed(
    hs: Seq<Hierarchy>,
    ds: Seq<DirView>,
    p: int,
    n: nat,
    i: int,
)
    requires
        n <= 14,
        0 <= i < n,
        ds[p].file_inodes + 14 <= u64::MAX,
    ensures
        ({
            let all = listed_files(hs, ds, p, n);
            let file = control_files()[i];
            let entry = Listed {
                name: encode_utf8(name_of(file)),
                inode: (ds[p].file_inodes + i) as u64,
                directory: false,
            };
            &&& all.len() <= n
            &&& visible(hs, ds, p, file) <==> exists|k: int|
                0 <= k < all.len() && (#[trigger] all[k]).inode == ds[p].file_inodes + i
            &&& visible(hs, ds, p, file) ==> all.contains(entry)
        }),
    decreases n,
{
    let all = listed_files(hs, ds, p, n);
    let fewer = listed_files(hs, ds, p, (n - 1) as nat);
    listed_inodes(hs, ds, p, n);
    listed_inodes(hs, ds, p, (n - 1) as nat);
    let file = control_files()[i];
    let entry = Listed {
        name: encode_utf8(name_of(file)),
        inode: (ds[p].file_inodes + i) as u64,
        directory: false,
    };
    if i < n - 1 {
        law_exactly_the_shown_files_are_listed(hs, ds, p, (n - 1) as nat, i);
        if visible(hs, ds, p, file) {
            let k = choose|k: int| 0 <= k < fewer.len() && fewer[k] == entry;
            assert(all[k] == fewer[k]);
        } else if exists|k: int| 0 <= k < all.len() && (#[trigger] all[k]).inode == ds[p].file_inodes
            + i {
            let k = choose|k: int|
                0 <= k < all.len() && (#[trigger] all[k]).inode == ds[p].file_inodes + i;
            assert(k < fewer.len() ==> all[k] == fewer[k]);
            assert(false);
        }
    } else {
        if visible(hs, ds, p, file) {
            assert(all[all.len() - 1] == entry);
        } else {
            assert(all == fewer);
        }
    }
}

proof fn listed_inodes(hs: Seq<Hierarchy>, ds: Seq<DirView>, p: int, n: nat)
    requires
        n <= 14,
        ds[p].file_inodes + 14 <= u64::MAX,
    ensures
        listed_files(hs, ds, p, n).len() <= n,
        forall|k: int|
            0 <= k < listed_files(hs, ds, p, n).len() ==> ds[p].file_inodes <= (
            #[trigger] listed_files(hs, ds, p, n)[k]).inode < ds[p].file_inodes + n,
    decreases n,
{
    if n > 0 {
        listed_inodes(hs, ds, p, (n - 1) as nat);
    }
}

/// The control files are numbered, each with a number of its own.
pub proof fn law_control_files_are_numbered(file: ControlFile, i: int)
    requires
        0 <= i < 14,
    ensures
        0 <= file_number(file) < 14,
        control_files()[file_number(file)] == file,
        file_number(control_files()[i]) == i,
{
}

/// A change of one control file's attributes changes no other file and nothing else.
pub proof fn law_a_file_changes_alone(
    ds: Seq<DirView>,
    x: int,
    file: ControlFile,
    update: MetadataUpdate,
    now: u64,
    i: int,
)
    requires
        0 <= x < ds.len(),
        ds[x].files.len() == 14,
        0 <= i < 14,
    ensures
        ({
            let after = file_changed(ds, x, file, update, now);
            &&& after.len() == ds.len()
            &&& after[x].files.len() == 14
            &&& control_files()[i] == file ==> after[x].files[i] == updated(ds[x].files[i], update, now)
            &&& control_files()[i] != file ==> after[x].files[i] == ds[x].files[i]
            &&& after[x].metadata == ds[x].metadata && after[x].pids == ds[x].pids
                && after[x].children == ds[x].children
            &&& forall|y: int| 0 <= y < ds.len() && y != x ==> #[trigger] after[y] == ds[y]
        }),
{
    law_control_files_are_numbered(file, i);
}

/// A directory is made only under a name that is free and may be one, as a directory, not too deep,
/// not beside too many, and where its parent's entry is held.
pub proof fn law_a_directory_is_made_only_where_it_may_be(
    hs: Seq<Hierarchy>,
    ds: Seq<DirView>,
    held: bool,
    p: int,
    name: Seq<u8>,
    options: NamedCreateOptions,
    exclusive: bool,
)
    ensures
        create_check(hs, ds, held, p, name, options, exclusive) == Ok::<Option<Entry>, Error>(None) <==> {
            &&& name.len() <= 255
            &&& forall|i: int| 0 <= i < name.len() ==> #[trigger] name[i] != 10
            &&& !ds[p].children.contains_key(name)
            &&& named(name) is None
            &&& options.directory && !options.device
            &&& ends(ds, p, 257) && depth(ds, p, 257) < 256
            &&& ds[p].children.dom().len() < 65_536
            &&& held
        },
{
    if name.contains(10u8) {
        let i = choose|i: int| 0 <= i < name.len() && name[i] == 10u8;
        assert(name[i] == 10);
    } else if name.len() <= 255 {
        assert forall|i: int| 0 <= i < name.len() implies #[trigger] name[i] != 10 by {
            assert(!name.contains(10u8));
        }
    }
}

/// A name is made once: what was made is given to whoever asks for it again, and refused to whoever
/// wants to make it anew.
pub proof fn law_a_name_is_made_once(
    hs: Seq<Hierarchy>,
    ds: Seq<DirView>,
    held: bool,
    p: int,
    name: Seq<u8>,
    c: usize,
    now: u64,
    options: NamedCreateOptions,
)
    requires
        0 <= p < ds.len(),
        c < ds.len(),
        p != c,
        name.len() <= 255,
        !name.contains(10u8),
    ensures
        ({
            let after = published(ds, p, name, c, now);
            &&& create_check(hs, after, held, p, name, options, true) == Err::<Option<Entry>, Error>(
                Error::AlreadyExists,
            )
            &&& create_check(hs, after, held, p, name, options, false) == Ok::<Option<Entry>, Error>(
                Some(Entry::Dir(c)),
            )
        }),
{
}

/// A directory that others were made in, or that has members, is not removed; and what is removed is
/// the directory that was meant.
pub proof fn law_only_an_empty_directory_is_removed(
    ds: Seq<DirView>,
    p: int,
    name: Seq<u8>,
    expected: Option<Entry>,
    other: Seq<u8>,
    pid: u64,
)
    requires
        unlink_error(ds, p, name, expected, true) is None,
    ensures
        ({
            let c = ds[p].children[name];
            &&& ds[p].children.contains_key(name)
            &&& !ds[c as int].children.contains_key(other)
            &&& !ds[c as int].pids.contains_key(pid)
            &&& expected is Some ==> expected == Some(Entry::Dir(c))
            &&& unlink_error(ds, p, name, expected, false) == Some(Error::IsADirectory)
        }),
{
}

/// Removing a name leaves every other name of the directory, and every other directory.
pub proof fn law_a_removal_takes_one_name(
    ds: Seq<DirView>,
    p: int,
    name: Seq<u8>,
    now: u64,
    other: Seq<u8>,
    y: int,
)
    requires
        0 <= p < ds.len(),
        ds[p].children.contains_key(name),
        ds[p].children[name] < ds.len(),
        ds[p].children[name] != p,
        0 <= y < ds.len(),
        other != name,
    ensures
        ({
            let after = unlinked(ds, p, name, now);
            let c = ds[p].children[name] as int;
            &&& after.len() == ds.len()
            &&& !after[p].children.contains_key(name)
            &&& after[p].children.contains_key(other) == ds[p].children.contains_key(other)
            &&& ds[p].children.contains_key(other) ==> after[p].children[other]
                == ds[p].children[other]
            &&& !after[c].linked && after[c].live == ds[c].live && after[c].pids == ds[c].pids
            &&& after[p].metadata.mtime == now && after[p].metadata.ctime == now
                && after[p].metadata.atime == ds[p].metadata.atime
            &&& y != p && y != c ==> after[y] == ds[y]
        }),
{
}

/// A new directory is empty, limits and freezes nothing, and its identities are its own: those of
/// its files are the fourteen in front of it.
pub proof fn law_a_new_directory_starts_with_nothing(
    hierarchy: usize,
    first_inode: u64,
    parent: Option<usize>,
    linked: bool,
    metadata: NodeMetadata,
    name: Seq<u8>,
    pid: u64,
)
    requires
        first_inode + 14 <= u64::MAX,
    ensures
        ({
            let new = fresh(hierarchy, first_inode, parent, linked, metadata);
            &&& new.inode == first_inode + 14 && new.file_inodes == first_inode
            &&& new.hierarchy == hierarchy && new.parent == parent && new.linked == linked && new.live
            &&& !new.children.contains_key(name)
            &&& !new.pids.contains_key(pid)
            &&& new.pids_max is None && new.pids_peak == 0 && new.pids_events_limit == 0
            &&& !new.frozen && !new.subtree_pids
            &&& new.uclamp.0 == 0 && new.uclamp.1 == 1024
            &&& new.metadata == metadata && new.name.len() == 0
            &&& new.files.len() == 14
        }),
{
}

/// A table that changed is told from the one before.
pub proof fn law_every_change_is_noticed(epoch: u64)
    ensures
        epoch_after(epoch) != epoch,
        epoch < u64::MAX ==> epoch_after(epoch) == epoch + 1,
{
}

/// A hierarchy gives out identities as long as all fifteen of a directory are within both bounds:
/// how many may be in use at once, and how many there are.
pub proof fn law_identities_are_given_while_there_are_enough(h: Hierarchy)
    requires
        inode_set(h.inodes).len() <= 983_055,
    ensures
        room_error(h) is None <==> inode_set(h.inodes).len() + 15 <= 983_055 && h.next_inode + 15
            <= u64::MAX,
{
}

/// The hierarchy that is found has the version and the controllers that were asked for, and none
/// before it has; where none is found, none has them.
pub proof fn law_a_hierarchy_is_found_by_what_it_is(
    hs: Seq<Hierarchy>,
    version: CgroupVersion,
    controllers: Seq<Seq<char>>,
    h: nat,
    j: int,
)
    requires
        h <= j < hs.len(),
    ensures
        match find_hierarchy(hs, version, controllers, h) {
            Some(i) => h <= i < hs.len() && hs[i].version == version && names(hs[i].controllers@)
                == controllers && (j < i ==> hs[j].version != version || names(hs[j].controllers@)
                != controllers),
            None => hs[j].version != version || names(hs[j].controllers@) != controllers,
        },
    decreases hs.len() - h,
{
    if !(hs[h as int].version == version && names(hs[h as int].controllers@) == controllers) {
        if h + 1 < hs.len() {
            law_a_hierarchy_is_found_by_what_it_is(
                hs,
                version,
                controllers,
                h + 1,
                if j > h {
                    j
                } else {
                    h as int + 1
                },
            );
        }
    }
}

/// The identities above a process go from the root down to its own directory.
pub proof fn law_identities_go_from_the_root_down(forest: Forest, x: usize)
    requires
        forest.wf(),
        x < forest@.len(),
        identities_above(forest, Some(x)) is Ok,
    ensures
        ({
            let all = identities_above(forest, Some(x))->Ok_0;
            let walk = chain(forest@, x as int, forest@.len());
            &&& all.len() == walk.len() && all.len() > 0
            &&& all[all.len() - 1] == forest@[x as int].inode
            &&& all[0] == forest@[walk[walk.len() - 1]].inode
            &&& forall|i: int|
                0 <= i < all.len() ==> #[trigger] all[i] == forest@[walk[walk.len() - 1 - i]].inode
        }),
{
    let walk = chain(forest@, x as int, forest@.len());
    assert(walk.len() > 0 && walk[0] == x as int);
}

/// A process is placed where its memberships lead and nowhere else: into the directories that are
/// still there, of memberships that are its own, and visible where that is asked for.
pub proof fn law_places_are_those_of_the_memberships(
    index: Index,
    bits: Seq<bool>,
    ds: Seq<DirView>,
    pid: u64,
    identity: Option<usize>,
    visible_only: bool,
    n: nat,
    h: usize,
    d: usize,
)
    requires
        n <= usize::MAX,
    ensures
        targets(index, bits, ds, pid, identity, visible_only, n).contains((h, d)) <==> {
            let m = index[(pid, h)];
            &&& h < n
            &&& index.contains_key((pid, h))
            &&& m.target == d
            &&& ds[d as int].live
            &&& identity is None || (identity->0 != 0 && m.identity == identity->0)
            &&& !visible_only || bits[m.publication as int]
        },
    decreases n,
{
    let all = targets(index, bits, ds, pid, identity, visible_only, n);
    if n > 0 {
        law_places_are_those_of_the_memberships(
            index,
            bits,
            ds,
            pid,
            identity,
            visible_only,
            (n - 1) as nat,
            h,
            d,
        );
        let fewer = targets(index, bits, ds, pid, identity, visible_only, (n - 1) as nat);
        if fewer.contains((h, d)) {
            let k = choose|k: int| 0 <= k < fewer.len() && fewer[k] == (h, d);
            assert(all[k] == fewer[k]);
        }
        if all.contains((h, d)) {
            let k = choose|k: int| 0 <= k < all.len() && all[k] == (h, d);
            if k < fewer.len() {
                assert(fewer[k] == all[k]);
            }
        }
        if all.len() > fewer.len() {
            assert(all[fewer.len() as int] == ((n - 1) as usize, index[(
                pid,
                (n - 1) as usize,
            )].target));
        }
    }
}

/// The places elsewhere are all but those of one hierarchy.
pub proof fn law_elsewhere_is_every_other_hierarchy(
    places: Seq<(usize, usize)>,
    h: usize,
    n: nat,
    place: (usize, usize),
)
    requires
        n <= places.len(),
    ensures
        elsewhere(places, h, n).contains(place) <==> place.0 != h && places.take(n as int).contains(
            place,
        ),
    decreases n,
{
    let all = elsewhere(places, h, n);
    if n > 0 {
        law_elsewhere_is_every_other_hierarchy(places, h, (n - 1) as nat, place);
        let fewer = elsewhere(places, h, (n - 1) as nat);
        let taken = places.take(n as int);
        let before = places.take(n - 1);
        if before.contains(place) {
            let k = choose|k: int| 0 <= k < before.len() && before[k] == place;
            assert(taken[k] == place);
        }
        if taken.contains(place) {
            let k = choose|k: int| 0 <= k < taken.len() && taken[k] == place;
            if k < n - 1 {
                assert(before[k] == place);
            }
        }
        assert(taken[n - 1] == places[n - 1]);
        if fewer.contains(place) {
            let k = choose|k: int| 0 <= k < fewer.len() && fewer[k] == place;
            assert(all[k] == place);
        }
        if all.contains(place) {
            let k = choose|k: int| 0 <= k < all.len() && all[k] == place;
            if k < fewer.len() {
                assert(fewer[k] == place);
            }
        }
        if all.len() > fewer.len() {
            assert(all[fewer.len() as int] == places[n - 1]);
        }
    }
}

/// Forgetting an owner's memberships forgets them all, and no one else's.
pub proof fn law_forgetting_spares_everyone_else(
    index: Index,
    pid: u64,
    identity: usize,
    k: (u64, usize),
)
    ensures
        k.0 != pid ==> forgotten(index, pid, identity, true).contains_key(k) == index.contains_key(k),
        k.0 == pid ==> (forgotten(index, pid, identity, true).contains_key(k) <==> index.contains_key(k)
            && (identity == 0 || index[k].identity != identity)),
        k.0 == pid ==> (forgotten(index, pid, identity, false).contains_key(k) <==> index.contains_key(
            k,
        ) && identity != 0 && index[k].identity == identity),
        forgotten(index, pid, identity, true).contains_key(k) ==> forgotten(
            index,
            pid,
            identity,
            true,
        )[k] == index[k],
{
}

/// Binding a process gives it those memberships of its number that no living process has, or that
/// are its own, and moves nothing.
pub proof fn law_binding_takes_over_what_is_free(
    index: Index,
    pid: u64,
    identity: usize,
    process: usize,
    gone: Seq<usize>,
    k: (u64, usize),
)
    requires
        index.contains_key(k),
    ensures
        ({
            let after = bound(index, pid, identity, process, gone);
            let m = index[k];
            let free = m.identity == 0 || gone.contains(m.identity) || (identity != 0 && m.identity
                == identity);
            &&& after.contains_key(k)
            &&& after[k].target == m.target && after[k].publication == m.publication
            &&& k.0 == pid && free ==> after[k].identity == identity && after[k].process == process
            &&& k.0 != pid || !free ==> after[k] == m
        }),
{
}

/// The membership of a process in the unified hierarchy is one of its own, and it is seen only if it
/// was published and its directory is still there.
pub proof fn law_the_unified_membership_is_its_own(
    index: Index,
    bits: Seq<bool>,
    hs: Seq<Hierarchy>,
    ds: Seq<DirView>,
    pid: u64,
    identity: Option<usize>,
    h: nat,
)
    requires
        hs.len() <= usize::MAX,
    ensures
        v2_membership(index, hs, pid, identity, h) matches Some(m) ==> {
            &&& admits(m, identity)
            &&& exists|g: usize|
                h <= g < hs.len() && hs[g as int].version == CgroupVersion::V2
                    && #[trigger] index.contains_key((pid, g)) && index[(pid, g)] == m
            &&& seen(bits, ds, Some(m)) matches Some(d) ==> d == m.target && bits[m.publication as int]
                && ds[d as int].live
            &&& bits[m.publication as int] && ds[m.target as int].live ==> seen(bits, ds, Some(m))
                == Some(m.target)
        },
    decreases hs.len() - h,
{
    if h < hs.len() {
        if index.contains_key((pid, h as usize)) && hs[h as int].version == CgroupVersion::V2
            && admits(index[(pid, h as usize)], identity) {
            assert(index.contains_key((pid, h as usize)));
        } else {
            law_the_unified_membership_is_its_own(index, bits, hs, ds, pid, identity, h + 1);
        }
    }
}

/// The system's clamps stay in order whatever is written: a write that is taken changes the one that
/// it names, and one that would put the lower above the upper, or any over the largest, is refused.
pub proof fn law_system_clamps_stay_in_order(controls: SchedUtilClampControls, value: u16)
    requires
        controls.minimum <= controls.maximum <= 1024,
        controls.minimum_rt_default <= 1024,
    ensures
        controls_after(controls, ClampControl::Minimum, value) is Some <==> value <= controls.maximum,
        controls_after(controls, ClampControl::Maximum, value) is Some <==> controls.minimum <= value
            <= 1024,
        controls_after(controls, ClampControl::MinimumRtDefault, value) is Some <==> value <= 1024,
        controls_after(controls, ClampControl::Minimum, value) matches Some(c) ==> c.minimum == value
            && c.maximum == controls.maximum && c.minimum_rt_default == controls.minimum_rt_default,
        controls_after(controls, ClampControl::Maximum, value) matches Some(c) ==> c.maximum == value
            && c.minimum == controls.minimum && c.minimum_rt_default == controls.minimum_rt_default,
        controls_after(controls, ClampControl::MinimumRtDefault, value) matches Some(c)
            ==> c.minimum_rt_default == value && c.minimum == controls.minimum && c.maximum
            == controls.maximum,
{
}

/// The constraints of a task are the system's bounds and, in a directory of the unified hierarchy,
/// what that directory narrows them to; elsewhere nothing narrows them.
pub proof fn law_constraints_are_the_systems_and_the_directorys(
    controls: SchedUtilClampControls,
    ds: Seq<DirView>,
    x: int,
)
    requires
        controls.minimum <= controls.maximum,
    ensures
        ({
            let inside = constraints_in(controls, ds, Some(x));
            let outside = constraints_in(controls, ds, None);
            &&& inside.system_minimum == controls.minimum && outside.system_minimum == controls.minimum
            &&& inside.system_maximum == controls.maximum && outside.system_maximum == controls.maximum
            &&& inside.rt_default_minimum == controls.minimum_rt_default
            &&& outside.rt_default_minimum == controls.minimum_rt_default
            &&& outside.cgroup_minimum == 0 && outside.cgroup_maximum == 1024
            &&& inside.cgroup_minimum == effective_clamp(
                ds,
                x,
                (controls.minimum, controls.maximum),
            ).0
            &&& inside.cgroup_maximum == effective_clamp(
                ds,
                x,
                (controls.minimum, controls.maximum),
            ).1
        }),
{
}

/// A pass reports the gravest failure that it met, whichever came first.
pub proof fn law_a_pass_reports_its_gravest_failure(
    a: UclampReconcileFailure,
    b: UclampReconcileFailure,
)
    ensures
        graver(Some(a), b) == graver(Some(b), a),
        graver(None, a) == a,
        graver(Some(a), a) == a,
        graver(Some(UclampReconcileFailure::Scheduler), a) == a,
        graver(Some(a), UclampReconcileFailure::Unsupported) == UclampReconcileFailure::Unsupported,
{
}

/// A task's bounds count as a generation's only where the task took them and that generation is still
/// the policy's; a task that has ended asks for nothing, and every other failure asks for another
/// pass.
pub proof fn law_only_a_current_task_counts(
    policy: UclampPolicy,
    outcome: Result<(), TaskSchedError>,
    snapshot: u64,
    expected: u64,
    retry: Option<UclampReconcileFailure>,
)
    ensures
        ({
            let (failure, pending, counts) = task_republished(
                policy,
                outcome,
                snapshot,
                expected,
                retry,
            );
            &&& counts <==> outcome is Ok && snapshot == expected && policy.generation == snapshot
            &&& counts ==> pending == policy.pending && failure == retry
            &&& outcome == Err::<(), TaskSchedError>(TaskSchedError::TaskExited) ==> pending
                == policy.pending && failure == retry
            &&& outcome is Ok && !counts ==> failure == retry && pending == ticket(
                policy.pending,
                snapshot,
            )
            &&& outcome == Err::<(), TaskSchedError>(TaskSchedError::Scheduler) ==> failure is Some
                && pending == ticket(policy.pending, snapshot)
            &&& outcome == Err::<(), TaskSchedError>(TaskSchedError::Unsupported) ==> failure
                == Some(UclampReconcileFailure::Unsupported)
        }),
{
}

/// A pass has converged where nothing is left to do or something newer is; otherwise it is tried
/// again, for the failure that it met.
pub proof fn law_a_pass_converges_or_is_tried_again(
    claimed: u64,
    failure: Option<UclampReconcileFailure>,
    next: u64,
)
    ensures
        failure is None && next == 0 ==> drained(claimed, failure, next)
            == UclampReconcileDrain::Converged,
        next != 0 && is_newer(next, claimed) ==> drained(claimed, failure, next)
            == UclampReconcileDrain::Converged,
        failure is Some && next == 0 ==> drained(claimed, failure, next)
            == UclampReconcileDrain::Retry(failure->0),
        next == claimed && next != 0 ==> drained(claimed, failure, next) is Retry,
{
}

} // verus!
