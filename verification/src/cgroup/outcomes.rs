//! What comes of what is asked: when it is done, and what is different then.

use vstd::prelude::*;
use vstd::utf8::encode_utf8;
use crate::cgroup::admission::{fork_crowded, fork_outcome, fork_refusal, is_known};
use crate::cgroup::collections::Membership;
use crate::cgroup::files::{mode_of, name_of, named, subtree_line, visible, ControlFile};
use crate::cgroup::forest::{below, depth, distance, ends, limiting, reaches, version, CgroupVersion,
    DirView, Hierarchy, NodeMetadata};
use crate::cgroup::namespace::{fresh_files, fresh_metadata, linked_in, linked_out, touched, Entry};
use crate::cgroup::nodes::file_error;
use crate::cgroup::options::{joined, names_line};
use crate::cgroup::paths::{cpuset_line, first_of, mountable, relative_path, shown_root};
use crate::cgroup::registry::{attach_decision, attach_outcome, attach_refused, attached, moved,
    owners_of, Index};
use crate::cgroup::rename::{height, height_among, rename_outcome, renamed};
use crate::cgroup::tree::{created_metadata, NamedCreateOptions};
use crate::cgroup::uclamp::{failure_of, v2_place, TaskSchedError, UclampReconcileFailure};
use crate::cgroup::writes::{may_move, subtree_outcome, OpenCredentials, TargetIds};
use crate::error::Error;
use crate::text::lists;

verus! {

/// A fork is let in exactly where every place takes it: none controls its children's members or
/// is frozen, none of the limits on the way is met, the child is in none of them and known nowhere,
/// and neither a directory nor the whole is full.
pub proof fn law_when_a_fork_is_let_in(
    index: Index,
    global_limit: usize,
    per_cgroup_limit: usize,
    hs: Seq<Hierarchy>,
    ds: Seq<DirView>,
    places: Seq<(usize, usize)>,
    child: u64,
    i: int,
)
    requires
        0 <= i < places.len(),
    ensures
        ({
            let why = fork_outcome(
                index,
                global_limit,
                per_cgroup_limit,
                hs,
                ds,
                places,
                child,
            );
            let target = places[i].1 as int;
            &&& attach_refused(hs, ds, target, true) ==> why is Some
            &&& limiting(hs, ds, target, ds.len()) is Some ==> why is Some
            &&& ds[target].pids.contains_key(child) ==> why is Some
            &&& ds[target].pids.dom().len() >= per_cgroup_limit ==> why is Some
            &&& (exists|h: usize| #[trigger] index.contains_key((child, h))) ==> why is Some
            &&& index.dom().len() + places.len() > global_limit ==> why is Some
            &&& why is Some ==> why->0 == Error::ResourceBusy || why->0 == Error::WouldBlock
                || why->0 == Error::BadState || why->0 == Error::AlreadyExists || why->0
                == Error::NoMemory
        }),
{
    let target = places[i].1 as int;
    if attach_refused(hs, ds, target, true) || limiting(hs, ds, target, ds.len()) is Some {
        places_refuse(hs, ds, places, 0, i);
    }
    if ds[target].pids.contains_key(child) || ds[target].pids.dom().len() >= per_cgroup_limit {
        places_crowd(ds, places, child, per_cgroup_limit, 0, i);
    }
    refusals_are_known(hs, ds, places, 0);
    crowding_is_known(ds, places, child, per_cgroup_limit, 0);
    if exists|h: usize| #[trigger] index.contains_key((child, h)) {
        assert(is_known(index, child));
    }
}

proof fn places_refuse(
    hs: Seq<Hierarchy>,
    ds: Seq<DirView>,
    places: Seq<(usize, usize)>,
    from: nat,
    i: int,
)
    requires
        from <= i < places.len(),
        attach_refused(hs, ds, places[i].1 as int, true) || limiting(
            hs,
            ds,
            places[i].1 as int,
            ds.len(),
        ) is Some,
    ensures
        fork_refusal(hs, ds, places, from) is Some,
    decreases places.len() - from,
{
    if from < i {
        let target = places[from as int].1 as int;
        if !attach_refused(hs, ds, target, true) && limiting(hs, ds, target, ds.len()) is None {
            places_refuse(hs, ds, places, from + 1, i);
        }
    }
}

proof fn refusals_are_known(
    hs: Seq<Hierarchy>,
    ds: Seq<DirView>,
    places: Seq<(usize, usize)>,
    from: nat,
)
    ensures
        fork_refusal(hs, ds, places, from) is Some ==> {
            let error = (fork_refusal(hs, ds, places, from)->0).0;
            error == Error::ResourceBusy || error == Error::WouldBlock || error == Error::BadState
        },
    decreases places.len() - from,
{
    if from < places.len() {
        refusals_are_known(hs, ds, places, from + 1);
    }
}

proof fn places_crowd(
    ds: Seq<DirView>,
    places: Seq<(usize, usize)>,
    child: u64,
    limit: usize,
    from: nat,
    i: int,
)
    requires
        from <= i < places.len(),
        ds[places[i].1 as int].pids.contains_key(child) || ds[places[i].1 as int].pids.dom().len()
            >= limit,
    ensures
        fork_crowded(ds, places, child, limit, from) is Some,
    decreases places.len() - from,
{
    if from < i {
        let pids = ds[places[from as int].1 as int].pids;
        if !pids.contains_key(child) && pids.dom().len() < limit {
            places_crowd(ds, places, child, limit, from + 1, i);
        }
    }
}

proof fn crowding_is_known(
    ds: Seq<DirView>,
    places: Seq<(usize, usize)>,
    child: u64,
    limit: usize,
    from: nat,
)
    ensures
        fork_crowded(ds, places, child, limit, from) is Some ==> fork_crowded(
            ds,
            places,
            child,
            limit,
            from,
        )->0 == Error::AlreadyExists || fork_crowded(ds, places, child, limit, from)->0
            == Error::NoMemory,
    decreases places.len() - from,
{
    if from < places.len() {
        crowding_is_known(ds, places, child, limit, from + 1);
    }
}

/// A child that is known is not forked again, and a fork that the whole has no room for is refused
/// before any directory is looked at; a fork into no place needs none of this.
pub proof fn law_why_a_fork_is_refused(
    index: Index,
    global_limit: usize,
    per_cgroup_limit: usize,
    hs: Seq<Hierarchy>,
    ds: Seq<DirView>,
    places: Seq<(usize, usize)>,
    child: u64,
    h: usize,
)
    requires
        fork_refusal(hs, ds, places, 0) is None,
    ensures
        ({
            let why = fork_outcome(
                index,
                global_limit,
                per_cgroup_limit,
                hs,
                ds,
                places,
                child,
            );
            &&& places.len() == 0 ==> why is None
            &&& places.len() > 0 && index.contains_key((child, h)) ==> why == Some(
                Error::AlreadyExists,
            )
            &&& places.len() > 0 && (forall|g: usize| !#[trigger] index.contains_key((child, g)))
                && index.dom().len() + places.len() > global_limit ==> why == Some(
                Error::NoMemory,
            )
        }),
{
    if index.contains_key((child, h)) {
        assert(is_known(index, child));
    }
}

/// What a move of a process into a directory needs: a directory that does not control its
/// children's members, room in it and, for one that is nowhere yet, room in the whole; and a
/// membership that is not on its way.
pub proof fn law_what_a_move_needs(
    index: Index,
    bits: Seq<bool>,
    global_limit: usize,
    per_cgroup_limit: usize,
    hs: Seq<Hierarchy>,
    ds: Seq<DirView>,
    target: usize,
    pid: u64,
    charge_fork: bool,
)
    ensures
        ({
            let outcome = attach_outcome(
                index,
                bits,
                global_limit,
                per_cgroup_limit,
                hs,
                ds,
                target,
                pid,
                charge_fork,
            );
            let dir = ds[target as int];
            &&& version(hs, ds, target as int) == CgroupVersion::V2 && dir.parent is Some
                && dir.subtree_pids ==> outcome == Err::<bool, Error>(Error::ResourceBusy)
            &&& outcome == Ok::<bool, Error>(true) ==> !dir.pids.contains_key(pid)
                && dir.pids.dom().len() < per_cgroup_limit && (charge_fork ==> limiting(
                hs,
                ds,
                target as int,
                ds.len(),
            ) is None)
            &&& outcome == Ok::<bool, Error>(false) ==> dir.pids.contains_key(pid)
                && bits[dir.pids[pid] as int]
        }),
{
}

/// Why a process is not moved, in this order: its membership is on its way; the directory has it
/// already, or has something else under its number; a limit on the way is met; the directory is
/// full; the whole is; or what it would leave does not have it.
pub proof fn law_why_a_process_is_not_moved(
    kept: Index,
    bits: Seq<bool>,
    global_limit: usize,
    per_cgroup_limit: usize,
    hs: Seq<Hierarchy>,
    ds: Seq<DirView>,
    target: usize,
    pid: u64,
    charge_fork: bool,
)
    ensures
        ({
            let decided = attach_decision(
                kept,
                bits,
                global_limit,
                per_cgroup_limit,
                hs,
                ds,
                target,
                pid,
                charge_fork,
            );
            let dir = ds[target as int];
            let key = (pid, dir.hierarchy);
            let full = limiting(hs, ds, target as int, ds.len());
            let hidden = kept.contains_key(key) && !bits[kept[key].publication as int];
            let free = !hidden && !dir.pids.contains_key(pid);
            let unlimited = !charge_fork || full is None;
            &&& hidden ==> decided == Err::<bool, Error>(Error::ResourceBusy)
            &&& !hidden && dir.pids.contains_key(pid) && !bits[dir.pids[pid] as int] ==> decided
                == Err::<bool, Error>(Error::ResourceBusy)
            &&& free && charge_fork && full is Some && ds[full->0].pids_events_limit < u64::MAX
                ==> decided == Err::<bool, Error>(Error::WouldBlock)
            &&& free && charge_fork && full is Some && ds[full->0].pids_events_limit == u64::MAX
                ==> decided == Err::<bool, Error>(Error::BadState)
            &&& free && unlimited && dir.pids.dom().len() >= per_cgroup_limit ==> decided == Err::<
                bool,
                Error,
            >(Error::NoMemory)
            &&& free && unlimited && dir.pids.dom().len() < per_cgroup_limit
                && !kept.contains_key(key) ==> decided == (if kept.dom().len() >= global_limit {
                Err::<bool, Error>(Error::NoMemory)
            } else {
                Ok(true)
            })
        }),
{
}

/// A process that is moved is in its directory under its new publication and no longer in the one
/// that it left; no other process and no other directory is concerned.
pub proof fn law_a_moved_process_is_in_one_of_two(
    ds: Seq<DirView>,
    old: Option<Membership>,
    target: usize,
    pid: u64,
    publication: usize,
    x: int,
    other: u64,
)
    requires
        target < ds.len(),
        old is Some ==> old->0.target < ds.len(),
        0 <= x < ds.len(),
        other != pid,
    ensures
        ({
            let then = moved(ds, old, target, pid, publication);
            &&& then.len() == ds.len()
            &&& then[target as int].pids.contains_key(pid)
            &&& then[target as int].pids[pid] == publication
            &&& old is Some && ds[old->0.target as int].live && old->0.target != target
                ==> !then[old->0.target as int].pids.contains_key(pid)
            &&& then[x].pids.contains_key(other) == ds[x].pids.contains_key(other)
            &&& ds[x].pids.contains_key(other) ==> then[x].pids[other] == ds[x].pids[other]
            &&& x != target && (old is None || x != old->0.target) ==> then[x] == ds[x]
            &&& then[x].children == ds[x].children
            &&& then[x].pids_max == ds[x].pids_max
        }),
{
}

/// A membership that replaces another keeps whose it is.
pub proof fn law_a_moved_membership_keeps_its_owner(
    old: Option<Membership>,
    target: usize,
    publication: usize,
)
    ensures
        attached(old, target, publication).target == target,
        attached(old, target, publication).publication == publication,
        old is Some ==> attached(old, target, publication).identity == old->0.identity && attached(
            old,
            target,
            publication,
        ).process == old->0.process,
        old is None ==> attached(old, target, publication).identity == 0 && attached(
            old,
            target,
            publication,
        ).process == 0,
{
}

/// When a directory is renamed: within one hierarchy, of the first version, to a name that can be
/// one, that is free, not into itself or below, not deeper than is allowed and not beside too many.
pub proof fn law_when_a_directory_is_renamed(
    hs: Seq<Hierarchy>,
    ds: Seq<DirView>,
    held: bool,
    from: int,
    src_name: Seq<u8>,
    src: Entry,
    to: int,
    dst_name: Seq<u8>,
    dst: Option<Entry>,
)
    ensures
        ({
            let outcome = rename_outcome(hs, ds, held, from, src_name, src, to, dst_name, dst);
            let c = ds[from].children[src_name];
            &&& outcome == Ok::<bool, Error>(true) ==> {
                &&& ds[from].hierarchy == ds[to].hierarchy
                &&& version(hs, ds, from) == CgroupVersion::V1
                &&& dst_name.len() <= 255
                &&& !dst_name.contains(10u8)
                &&& named(src_name) is None
                &&& named(dst_name) is None
                &&& ds[from].children.contains_key(src_name)
                &&& src == Entry::Dir(c)
                &&& !ds[to].children.contains_key(dst_name)
                &&& dst is None
                &&& from != to ==> held && !reaches(ds, to, c as int, 256) && depth(ds, to, 257)
                    + 1 + height(ds, c as int) <= 256 && ds[to].children.dom().len() < 65_536
            }
            &&& outcome == Ok::<bool, Error>(false) ==> ds[to].children.contains_key(dst_name)
                && ds[to].children[dst_name] == c
        }),
{
}

/// Why a directory is not renamed, in this order.
pub proof fn law_why_a_directory_is_not_renamed(
    hs: Seq<Hierarchy>,
    ds: Seq<DirView>,
    held: bool,
    from: int,
    src_name: Seq<u8>,
    src: Entry,
    to: int,
    dst_name: Seq<u8>,
    dst: Option<Entry>,
)
    ensures
        ({
            let outcome = rename_outcome(hs, ds, held, from, src_name, src, to, dst_name, dst);
            let c = ds[from].children[src_name];
            let near = ds[from].hierarchy == ds[to].hierarchy;
            let first = near && version(hs, ds, from) == CgroupVersion::V1;
            let named_well = first && dst_name.len() <= 255 && !dst_name.contains(10u8)
                && named(src_name) is None && named(dst_name) is None && (from == to || held);
            let found = named_well && ds[from].children.contains_key(src_name) && src == Entry::Dir(
                c,
            );
            &&& !near ==> outcome == Err::<bool, Error>(Error::CrossesDevices)
            &&& near && !first ==> outcome == Err::<bool, Error>(Error::OperationNotPermitted)
            &&& first && dst_name.len() > 255 ==> outcome == Err::<bool, Error>(Error::NameTooLong)
            &&& first && dst_name.len() <= 255 && dst_name.contains(10u8) ==> outcome == Err::<
                bool,
                Error,
            >(Error::InvalidInput)
            &&& named_well && !ds[from].children.contains_key(src_name) ==> outcome == Err::<
                bool,
                Error,
            >(Error::NotFound)
            &&& found && ds[to].children.contains_key(dst_name) && ds[to].children[dst_name] != c
                && dst == Some(Entry::Dir(ds[to].children[dst_name])) ==> outcome == Err::<
                bool,
                Error,
            >(Error::AlreadyExists)
            &&& found && !ds[to].children.contains_key(dst_name) && dst is None && from == to
                ==> outcome == Ok::<bool, Error>(true)
        }),
{
}

/// A rename notes the time at both directories, and of what was renamed when it last changed.
pub proof fn law_a_rename_notes_the_time(
    ds: Seq<DirView>,
    from: int,
    src_name: Seq<u8>,
    to: int,
    dst_name: Seq<u8>,
    now: u64,
    x: int,
)
    requires
        0 <= from < ds.len(),
        0 <= to < ds.len(),
        0 <= x < ds.len(),
        ds[from].children[src_name] < ds.len(),
        ds[from].children[src_name] != from,
        ds[from].children[src_name] != to,
    ensures
        ({
            let then = renamed(ds, from, src_name, to, dst_name, now);
            let c = ds[from].children[src_name] as int;
            &&& then[from].metadata.mtime == now && then[from].metadata.ctime == now
            &&& then[to].metadata.mtime == now && then[to].metadata.ctime == now
            &&& then[from].metadata.atime == ds[from].metadata.atime
            &&& then[c].metadata.ctime == now
            &&& then[c].metadata.mtime == ds[c].metadata.mtime
            &&& then[c].name == dst_name
            &&& then[c].parent == Some(to as usize)
            &&& then[c].children == ds[c].children
            &&& then[c].pids == ds[c].pids
            &&& x != from && x != to && x != c ==> then[x] == ds[x]
            &&& from != to ==> !then[from].children.contains_key(src_name)
            &&& then[to].children.contains_key(dst_name) && then[to].children[dst_name] == c
        }),
{
}

/// A name comes into one table and goes out of one, and the time is noted there.
pub proof fn law_a_table_changes_by_one_name(
    ds: Seq<DirView>,
    p: int,
    name: Seq<u8>,
    other: Seq<u8>,
    c: usize,
    now: u64,
    x: int,
)
    requires
        0 <= p < ds.len(),
        0 <= x < ds.len(),
        other != name,
    ensures
        linked_in(ds, p, name, c, now)[p].children.contains_key(name),
        linked_in(ds, p, name, c, now)[p].children[name] == c,
        linked_in(ds, p, name, c, now)[p].children.contains_key(other)
            == ds[p].children.contains_key(other),
        !linked_out(ds, p, name, now)[p].children.contains_key(name),
        linked_out(ds, p, name, now)[p].children.contains_key(other)
            == ds[p].children.contains_key(other),
        linked_in(ds, p, name, c, now)[p].metadata.mtime == now,
        linked_in(ds, p, name, c, now)[p].metadata.ctime == now,
        linked_out(ds, p, name, now)[p].metadata.mtime == now,
        linked_out(ds, p, name, now)[p].metadata.ctime == now,
        touched(ds[p].metadata, now).atime == ds[p].metadata.atime,
        touched(ds[p].metadata, now).mode == ds[p].metadata.mode,
        x != p ==> linked_in(ds, p, name, c, now)[x] == ds[x] && linked_out(ds, p, name, now)[x]
            == ds[x],
{
}

/// A new directory has the mode that was asked for and belongs to whom it was asked for, or to the
/// superuser; its times are all the present.  So are those of its files, which are the superuser's.
pub proof fn law_a_new_directory_belongs_to_its_maker(
    options: NamedCreateOptions,
    uid: u32,
    gid: u32,
    now: u64,
    i: int,
)
    ensures
        created_metadata(options, now).mode == options.permission,
        options.owner == Some((uid, gid)) ==> created_metadata(options, now).uid == uid
            && created_metadata(options, now).gid == gid,
        options.owner is None ==> created_metadata(options, now).uid == 0 && created_metadata(
            options,
            now,
        ).gid == 0,
        created_metadata(options, now).atime == now,
        created_metadata(options, now).mtime == now,
        created_metadata(options, now).ctime == now,
        created_metadata(options, now).rdev == 0,
        fresh_metadata(now) == (NodeMetadata {
            mode: 493,
            uid: 0,
            gid: 0,
            rdev: 0,
            atime: now,
            mtime: now,
            ctime: now,
        }),
        fresh_files(now).len() == 14,
        0 <= i < 14 ==> fresh_files(now)[i].uid == 0 && fresh_files(now)[i].gid == 0
            && fresh_files(now)[i].atime == now && fresh_files(now)[i].mtime == now
            && fresh_files(now)[i].ctime == now,
{
}

/// Files that only report are read by everyone and written by nobody; the one that kills is only
/// written, by its owner; every other is read by everyone and written by its owner.
pub proof fn law_files_have_their_modes(file: ControlFile)
    ensures
        mode_of(file) == 256 + 32 + 4 || mode_of(file) == 256 + 128 + 32 + 4 || mode_of(file)
            == 128,
        (mode_of(file) == 128) == (file == ControlFile::Kill),
        (mode_of(file) == 256 + 32 + 4) == (file == ControlFile::Controllers || file
            == ControlFile::Events || file == ControlFile::Type || file == ControlFile::PidsCurrent
            || file == ControlFile::PidsEvents || file == ControlFile::PidsPeak),
{
}

/// The names of the control files, letter by letter.
pub proof fn law_control_files_are_spelled_so()
    ensures
        name_of(ControlFile::Tasks) == seq!['t', 'a', 's', 'k', 's'],
        name_of(ControlFile::Procs) == seq!['c', 'g', 'r', 'o', 'u', 'p', '.', 'p', 'r', 'o', 'c', 's'],
        name_of(ControlFile::Controllers) == seq!['c', 'g', 'r', 'o', 'u', 'p', '.', 'c', 'o', 'n', 't', 'r', 'o', 'l', 'l', 'e', 'r', 's'],
        name_of(ControlFile::SubtreeControl) == seq!['c', 'g', 'r', 'o', 'u', 'p', '.', 's', 'u', 'b', 't', 'r', 'e', 'e', '_', 'c', 'o', 'n', 't', 'r', 'o', 'l'],
        name_of(ControlFile::Events) == seq!['c', 'g', 'r', 'o', 'u', 'p', '.', 'e', 'v', 'e', 'n', 't', 's'],
        name_of(ControlFile::Type) == seq!['c', 'g', 'r', 'o', 'u', 'p', '.', 't', 'y', 'p', 'e'],
        name_of(ControlFile::Freeze) == seq!['c', 'g', 'r', 'o', 'u', 'p', '.', 'f', 'r', 'e', 'e', 'z', 'e'],
        name_of(ControlFile::Kill) == seq!['c', 'g', 'r', 'o', 'u', 'p', '.', 'k', 'i', 'l', 'l'],
        name_of(ControlFile::PidsMax) == seq!['p', 'i', 'd', 's', '.', 'm', 'a', 'x'],
        name_of(ControlFile::PidsCurrent) == seq!['p', 'i', 'd', 's', '.', 'c', 'u', 'r', 'r', 'e', 'n', 't'],
        name_of(ControlFile::PidsEvents) == seq!['p', 'i', 'd', 's', '.', 'e', 'v', 'e', 'n', 't', 's'],
        name_of(ControlFile::PidsPeak) == seq!['p', 'i', 'd', 's', '.', 'p', 'e', 'a', 'k'],
        name_of(ControlFile::UclampMin) == seq!['c', 'p', 'u', '.', 'u', 'c', 'l', 'a', 'm', 'p', '.', 'm', 'i', 'n'],
        name_of(ControlFile::UclampMax) == seq!['c', 'p', 'u', '.', 'u', 'c', 'l', 'a', 'm', 'p', '.', 'm', 'a', 'x'],
{
    reveal_strlit("tasks");
    reveal_strlit("cgroup.procs");
    reveal_strlit("cgroup.controllers");
    reveal_strlit("cgroup.subtree_control");
    reveal_strlit("cgroup.events");
    reveal_strlit("cgroup.type");
    reveal_strlit("cgroup.freeze");
    reveal_strlit("cgroup.kill");
    reveal_strlit("pids.max");
    reveal_strlit("pids.current");
    reveal_strlit("pids.events");
    reveal_strlit("pids.peak");
    reveal_strlit("cpu.uclamp.min");
    reveal_strlit("cpu.uclamp.max");
}

/// Nothing is said of a control file whose directory was let go, or that its directory does not
/// show.
pub proof fn law_when_a_file_is_not_there(
    hs: Seq<Hierarchy>,
    ds: Seq<DirView>,
    x: int,
    file: ControlFile,
)
    ensures
        (file_error(hs, ds, x, file) is None) == (ds[x].live && visible(hs, ds, x, file)),
        !ds[x].live ==> file_error(hs, ds, x, file) == Some(Error::InvalidInput),
        ds[x].live && !visible(hs, ds, x, file) ==> file_error(hs, ds, x, file) == Some(
            Error::NotFound,
        ),
{
}

/// The line of the one controller that is handed down, and none where it is not; a line of names
/// ends with its end, and where there are no names there is no line.
pub proof fn law_controllers_are_told_on_one_line(names: Seq<String>)
    ensures
        subtree_line(true) == seq![112u8, 105, 100, 115, 10],
        subtree_line(false).len() == 0,
        names.len() == 0 ==> names_line(names).len() == 0,
        names.len() > 0 ==> names_line(names) == joined(names, ' ', names.len()).push('\n'),
{
    reveal_strlit("pids\n");
    assert(vstd::utf8::is_ascii_chars("pids\n"@));
    vstd::utf8::is_ascii_chars_encode_utf8("pids\n"@);
    assert(encode_utf8("pids\n"@) =~= seq![112u8, 105, 100, 115, 10]);
}

/// Whether a membership's hierarchy has the controller of processor sets, or is the unified one.
pub open spec fn is_of_kind(hs: Seq<Hierarchy>, membership: (usize, usize), cpuset: bool) -> bool {
    let h = hs[membership.0 as int];
    &&& cpuset ==> lists(h.controllers@, "cpuset"@)
    &&& !cpuset ==> h.version == CgroupVersion::V2
}

/// The membership that is found is the first whose hierarchy has the controller of processor sets,
/// or is the unified one.
pub proof fn law_the_first_membership_of_a_kind(
    hs: Seq<Hierarchy>,
    found: Seq<(usize, usize)>,
    cpuset: bool,
    from: nat,
    i: int,
)
    requires
        from <= i < found.len(),
    ensures
        is_of_kind(hs, found[i], cpuset) && (forall|k: int|
            from <= k < i ==> !is_of_kind(hs, #[trigger] found[k], cpuset)) ==> first_of(
            hs,
            found,
            cpuset,
            from,
        ) == Some(found[i]),
        first_of(hs, found, cpuset, from) is None ==> !is_of_kind(hs, found[i], cpuset),
    decreases found.len() - from,
{
    if from < i {
        law_the_first_membership_of_a_kind(hs, found, cpuset, from + 1, i);
        assert(is_of_kind(hs, found[from as int], cpuset) || !is_of_kind(
            hs,
            found[from as int],
            cpuset,
        ));
    }
}

/// The processor set of a process is told by where it is among those who have the controller, else
/// in the unified hierarchy, and else as a slash; always on one line.
pub proof fn law_where_a_processor_set_is_told(
    hs: Seq<Hierarchy>,
    ds: Seq<DirView>,
    held: Seq<bool>,
    roots: Seq<usize>,
    found: Seq<(usize, usize)>,
)
    ensures
        ({
            let by = first_of(hs, found, true, 0);
            let unified = first_of(hs, found, false, 0);
            let line = cpuset_line(hs, ds, held, roots, found);
            &&& line.last() == 10
            &&& by is Some ==> line.drop_last() == relative_path(
                ds,
                held,
                (by->0).1 as int,
                shown_root(hs, roots, (by->0).0 as int) as int,
            )
            &&& by is None && unified is Some ==> line.drop_last() == relative_path(
                ds,
                held,
                (unified->0).1 as int,
                shown_root(hs, roots, (unified->0).0 as int) as int,
            )
            &&& by is None && unified is None ==> line == seq![47u8, 10]
        }),
{
    let line = cpuset_line(hs, ds, held, roots, found);
    reveal_strlit("/\n");
    assert(vstd::utf8::is_ascii_chars("/\n"@));
    vstd::utf8::is_ascii_chars_encode_utf8("/\n"@);
    assert(encode_utf8("/\n"@) =~= seq![47u8, 10]);
    let by = first_of(hs, found, true, 0);
    let unified = first_of(hs, found, false, 0);
    if by is Some {
        let path = relative_path(
            ds,
            held,
            (by->0).1 as int,
            shown_root(hs, roots, (by->0).0 as int) as int,
        );
        assert(path.push(10u8).drop_last() =~= path);
    } else if unified is Some {
        let path = relative_path(
            ds,
            held,
            (unified->0).1 as int,
            shown_root(hs, roots, (unified->0).0 as int) as int,
        );
        assert(path.push(10u8).drop_last() =~= path);
    }
}

/// A namespace shows its own root of a hierarchy that it knew, and the hierarchy's root of one that
/// came later.  A mount starts where an entry is held, or at the hierarchy's root.
pub proof fn law_what_a_namespace_shows(
    hs: Seq<Hierarchy>,
    roots: Seq<usize>,
    held: Seq<bool>,
    h: int,
    root: usize,
)
    ensures
        h < roots.len() ==> shown_root(hs, roots, h) == roots[h],
        h >= roots.len() ==> shown_root(hs, roots, h) == hs[h].root,
        mountable(hs, held, h, hs[h].root),
        root < held.len() && held[root as int] ==> mountable(hs, held, h, root),
        root != hs[h].root && (root >= held.len() || !held[root as int]) ==> !mountable(
            hs,
            held,
            h,
            root,
        ),
{
}

/// The height of a directory is the number of steps down to the deepest that is below it.
pub proof fn law_the_height_is_that_of_the_deepest(ds: Seq<DirView>, c: int, x: int)
    requires
        0 <= x < ds.len(),
        below(ds, x, c, 257),
    ensures
        distance(ds, x, c, 257) <= height(ds, c),
        height(ds, c) > 0 ==> exists|y: int|
            0 <= y < ds.len() && #[trigger] below(ds, y, c, 257) && distance(ds, y, c, 257)
                == height(ds, c),
{
    heights(ds, c, ds.len(), x);
}

proof fn heights(ds: Seq<DirView>, c: int, n: nat, x: int)
    requires
        n <= ds.len(),
    ensures
        0 <= x < n && below(ds, x, c, 257) ==> distance(ds, x, c, 257) <= height_among(ds, c, n),
        height_among(ds, c, n) >= 0,
        height_among(ds, c, n) > 0 ==> exists|y: int|
            0 <= y < n && #[trigger] below(ds, y, c, 257) && distance(ds, y, c, 257)
                == height_among(ds, c, n),
    decreases n,
{
    if n > 0 {
        heights(ds, c, (n - 1) as nat, x);
        assert(below(ds, n - 1, c, 257) || !below(ds, n - 1, c, 257));
    }
}

/// Of several owners of one number the last that is named holds.
pub proof fn law_the_last_owner_holds(pairs: Seq<(u64, usize)>, pid: u64, owner: usize, other: u64)
    requires
        other != pid,
    ensures
        ({
            let then = owners_of(pairs.push((pid, owner)), pairs.len() + 1);
            let before = owners_of(pairs, pairs.len());
            &&& then.contains_key(pid) && then[pid] == owner
            &&& then.contains_key(other) == before.contains_key(other)
            &&& before.contains_key(other) ==> then[other] == before[other]
        }),
{
    owners_stay(pairs, (pid, owner), pairs.len());
}

proof fn owners_stay(pairs: Seq<(u64, usize)>, pair: (u64, usize), n: nat)
    requires
        n <= pairs.len(),
    ensures
        owners_of(pairs.push(pair), n) == owners_of(pairs, n),
    decreases n,
{
    if n > 0 {
        owners_stay(pairs, pair, (n - 1) as nat);
    }
}

/// The directory of the unified hierarchy is the first place in one.
pub proof fn law_the_unified_place_is_the_first(
    hs: Seq<Hierarchy>,
    places: Seq<(usize, usize)>,
    from: nat,
    i: int,
)
    requires
        from <= i < places.len(),
    ensures
        hs[places[i].0 as int].version == CgroupVersion::V2 && (forall|k: int|
            from <= k < i ==> hs[(#[trigger] places[k]).0 as int].version == CgroupVersion::V1)
            ==> v2_place(hs, places, from) == Some(places[i].1 as int),
        v2_place(hs, places, from) is None ==> hs[places[i].0 as int].version == CgroupVersion::V1,
    decreases places.len() - from,
{
    if from < i {
        law_the_unified_place_is_the_first(hs, places, from + 1, i);
        assert(hs[places[from as int].0 as int].version == CgroupVersion::V1 || hs[places[from as int].0 as int].version
            == CgroupVersion::V2);
    }
}

/// Every refusal but that of a task that has ended is worth a retry, and is told as what it was.
pub proof fn law_every_other_refusal_is_tried_again(error: TaskSchedError)
    ensures
        (failure_of(error) is None) == (error is TaskExited),
        error is Scheduler ==> failure_of(error) == Some(UclampReconcileFailure::Scheduler),
        error is RunQueueUnavailable ==> failure_of(error) == Some(
            UclampReconcileFailure::RunQueueUnavailable,
        ),
        error is Unsupported ==> failure_of(error) == Some(UclampReconcileFailure::Unsupported),
{
}

/// The four identities that an opener has.
pub open spec fn is_ours(credentials: OpenCredentials, uid: u32) -> bool {
    uid == credentials.uid || uid == credentials.euid || uid == credentials.suid || uid
        == credentials.fsuid
}

/// The three identities that a process has.
pub open spec fn is_its(ids: TargetIds, uid: u32) -> bool {
    uid == ids.ruid || uid == ids.euid || uid == ids.suid
}

/// An opener may move a process with the capability, or if any of their four identities is any of
/// its three.
pub proof fn law_who_shares_an_identity_may_move(
    credentials: OpenCredentials,
    capable: bool,
    ids: TargetIds,
)
    ensures
        may_move(credentials, capable, ids) == (capable || exists|uid: u32| #[trigger]
            is_ours(credentials, uid) && is_its(ids, uid)),
{
    assert(is_ours(credentials, credentials.uid));
    assert(is_ours(credentials, credentials.euid));
    assert(is_ours(credentials, credentials.suid));
    assert(is_ours(credentials, credentials.fsuid));
}

/// Controllers are handed down by a directory that has members only if it is a root, or not of the
/// unified hierarchy; and no longer only if none of its children hands them down.
pub proof fn law_when_controllers_are_handed_down(
    hs: Seq<Hierarchy>,
    ds: Seq<DirView>,
    x: int,
    data: Seq<u8>,
    pid: u64,
    name: Seq<u8>,
)
    ensures
        version(hs, ds, x) == CgroupVersion::V2 && ds[x].parent is Some
            && ds[x].pids.contains_key(pid) ==> subtree_outcome(hs, ds, x, data) != Ok::<
            Option<bool>,
            Error,
        >(Some(true)),
        ds[x].children.contains_key(name) && ds[ds[x].children[name] as int].subtree_pids
            ==> subtree_outcome(hs, ds, x, data) != Ok::<Option<bool>, Error>(Some(false)),
{
    if ds[x].pids.contains_key(pid) {
        assert(ds[x].pids.dom().contains(pid));
        assert(!Set::<u64>::empty().contains(pid));
    }
    if ds[x].children.contains_key(name) {
        assert(ds[x].children.values().contains(ds[x].children[name]));
    }
}

} // verus!
