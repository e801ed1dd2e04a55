//! Control groups: their names, their members and their clamps.

use pseudofs::cgroup::files::{control_file_named, read_text_at, tasks_text, ControlFile};
use pseudofs::cgroup::forest::{Forest, MetadataUpdate, NodeMetadata};
use pseudofs::cgroup::namespace::Entry;
use pseudofs::cgroup::nodes::shown_size;
use pseudofs::cgroup::options::{join_names, parse_v1_controllers, proc_cgroups_snapshot};
use pseudofs::cgroup::paths::{
    new_cgroup_v1, new_cgroup_v1_for_namespace, new_cgroup_v2, new_cgroup_v2_for_namespace,
    CgroupMountView,
};
use pseudofs::cgroup::registry::{owner_table, PidMembershipRegistry, RegistryValidation};
use pseudofs::cgroup::tree::{try_reserve_cgroup_child_slot, NamedCreateOptions};
use pseudofs::cgroup::uclamp::{
    claim_uclamp_reconcile_pending, publish_uclamp_reconcile_pending_to, uclamp_constraints,
    uclamp_constraints_for_fork_admission, uclamp_generation_is_newer, uclamp_policy_commit_generation, uclamp_policy_write_generation,
    ClampControl, SchedUtilClampControls, TaskSchedError, UclampPolicy, UclampReconcileDrain,
    UclampReconcileFailure, MAX_UCLAMP,
};
use pseudofs::cgroup::writes::{
    can_migrate_with_credentials, check_migration, Migration, OpenCredentials, TargetIds,
    WriteAction,
};
use pseudofs::error::Error;
use pseudofs::fuse::metadata::NodeType;

const SYNTHETIC: RegistryValidation = RegistryValidation::SyntheticLocal;

/// A hierarchy of its own, and its root.
fn test_cgroup_dir() -> (Forest, usize) {
    let mut forest = Forest::new();
    let view = new_cgroup_v1(&mut forest, vec!["pids".to_string()], 1).unwrap();
    (forest, view.root)
}

/// The unified hierarchy, and its root.
fn test_cgroup_v2() -> (Forest, usize) {
    let mut forest = Forest::new();
    let view = new_cgroup_v2(&mut forest, 1).unwrap();
    (forest, view.root)
}

/// What a directory with default permissions is asked for with.
fn directory() -> NamedCreateOptions {
    NamedCreateOptions {
        directory: true,
        device: false,
        permission: 0o755,
        owner: None,
    }
}

fn create(forest: &mut Forest, parent: usize, name: &[u8]) -> usize {
    match forest.create_named(true, parent, name, directory(), true, 2) {
        Ok((Entry::Dir(dir), true)) => dir,
        _ => panic!("a directory is made"),
    }
}

fn inode(forest: &Forest, parent: usize, name: &[u8]) -> u64 {
    match forest.lookup(parent, name) {
        Ok(Entry::Dir(dir)) => forest.dirs[dir].inode,
        _ => panic!("a directory is found"),
    }
}

fn attach(
    registry: &mut PidMembershipRegistry,
    forest: &mut Forest,
    target: usize,
    pid: u64,
    charge: bool,
) -> Result<bool, Error> {
    registry.try_attach_locked(forest, &SYNTHETIC, target, pid, charge)
}

fn live(registry: &PidMembershipRegistry, forest: &Forest, dir: usize) -> Vec<u64> {
    let mut pids = registry.live_pids(forest, &SYNTHETIC, dir);
    pids.sort_unstable();
    pids
}

fn count(registry: &PidMembershipRegistry, forest: &Forest, dir: usize) -> u128 {
    registry.recursive_live_pid_count(forest, &SYNTHETIC, dir)
}

fn text(
    registry: &PidMembershipRegistry,
    forest: &Forest,
    dir: usize,
    file: ControlFile,
) -> Result<String, Error> {
    registry
        .read_text(forest, &SYNTHETIC, dir, file, &vec![])
        .map(|bytes| String::from_utf8(bytes).unwrap())
}

fn holds(forest: &Forest, dir: usize, pid: u64) -> bool {
    forest.pid_publication(dir, pid).is_some()
}

fn knows(registry: &PidMembershipRegistry, forest: &Forest, pid: u64) -> bool {
    registry.knows(forest.hierarchies.len(), pid)
}

fn maps_to(registry: &PidMembershipRegistry, forest: &Forest, pid: u64, dir: usize) -> bool {
    registry.visible_targets_without_identity_locked(forest, pid)
        == Ok(vec![(forest.dirs[dir].hierarchy, dir)])
        && live(registry, forest, dir).contains(&pid)
}

/// What a rename may change of a directory's metadata.
fn metadata_state(forest: &Forest, dir: usize) -> NodeMetadata {
    forest.dirs[dir].metadata
}

const SENTINEL: u64 = u64::MAX;

const NO_CHANGE: MetadataUpdate = MetadataUpdate {
    mode: None,
    owner: None,
    rdev: None,
    atime: None,
    mtime: None,
    ctime: None,
};

fn install_rename_timestamp_sentinels(forest: &mut Forest, parents: &[usize], source: usize) {
    for parent in parents {
        forest.dirs[*parent].metadata.update(
            MetadataUpdate {
                mtime: Some(SENTINEL),
                ctime: Some(SENTINEL),
                ..NO_CHANGE
            },
            3,
        );
    }
    forest.dirs[source].metadata.update(
        MetadataUpdate {
            ctime: Some(SENTINEL),
            ..NO_CHANGE
        },
        3,
    );
}

#[test]
fn scheduler_clamp_controls_keep_minimum_and_maximum_ordered() {
    let mut controls = SchedUtilClampControls::unrestricted();
    controls.set_minimum(400).unwrap();
    assert_eq!(controls.set_maximum(399), Err(Error::InvalidInput));
    controls.set_maximum(800).unwrap();
    controls.set_minimum_rt_default(1024).unwrap();
    assert_eq!(
        controls.set_minimum_rt_default(MAX_UCLAMP + 1),
        Err(Error::InvalidInput)
    );
}

#[test]
fn uclamp_reconcile_failure_classifies_nonterminal_scheduler_outcomes() {
    assert_eq!(
        UclampReconcileFailure::from_task_sched(TaskSchedError::Unsupported),
        Some(UclampReconcileFailure::Unsupported)
    );
    assert_eq!(
        UclampReconcileFailure::from_task_sched(TaskSchedError::RunQueueUnavailable(3)),
        Some(UclampReconcileFailure::RunQueueUnavailable)
    );
    assert_eq!(
        UclampReconcileFailure::from_task_sched(TaskSchedError::TaskExited),
        None
    );
}

#[test]
fn uclamp_reconcile_claim_preserves_same_generation_republish_race() {
    let mut pending = 0;
    publish_uclamp_reconcile_pending_to(&mut pending, 8);
    publish_uclamp_reconcile_pending_to(&mut pending, 6);
    assert_eq!(pending, 8);

    // Claim must precede snapshot/allocation. A concurrent publisher of the
    // same generation gets a new ticket instead of being cleared by the old
    // pass after it returns.
    assert_eq!(claim_uclamp_reconcile_pending(&mut pending), Some(8));
    assert_eq!(pending, 0);
    publish_uclamp_reconcile_pending_to(&mut pending, 8);
    assert_eq!(pending, 8);

    // A newer commit always supersedes the old retry ticket.
    publish_uclamp_reconcile_pending_to(&mut pending, 10);
    assert_eq!(pending, 10);
}

#[test]
fn uclamp_generation_wrap_skips_empty_pending_sentinel() {
    let final_generation = u64::MAX - 1;
    let in_progress = uclamp_policy_write_generation(final_generation);
    assert_eq!(in_progress, u64::MAX);
    assert_eq!(uclamp_policy_commit_generation(in_progress), 2);
}

#[test]
fn uclamp_serial_comparison_handles_max_to_one() {
    // The serial predicate itself is general modular arithmetic. Live policy
    // generations remain even and therefore use MAX -> 2 above.
    assert!(uclamp_generation_is_newer(1, u64::MAX));
    assert!(!uclamp_generation_is_newer(u64::MAX, 1));
}

#[test]
fn uclamp_pending_serial_order_survives_generation_wrap() {
    let stale_high = u64::MAX - 1;
    let new_low = 2;
    assert!(uclamp_generation_is_newer(new_low, stale_high));
    assert!(!uclamp_generation_is_newer(stale_high, new_low));

    let mut pending = 0;
    publish_uclamp_reconcile_pending_to(&mut pending, stale_high);
    publish_uclamp_reconcile_pending_to(&mut pending, new_low);
    assert_eq!(pending, new_low);

    // A late retry for the pre-wrap policy cannot replace the newer post-wrap
    // ticket.
    publish_uclamp_reconcile_pending_to(&mut pending, stale_high);
    assert_eq!(pending, new_low);
}

#[test]
fn uclamp_same_generation_republish_survives_wrap_boundary() {
    let mut pending = 0;
    let generation = 2;
    publish_uclamp_reconcile_pending_to(&mut pending, generation);
    assert_eq!(claim_uclamp_reconcile_pending(&mut pending), Some(generation));
    publish_uclamp_reconcile_pending_to(&mut pending, generation);
    assert_eq!(pending, generation);
}

#[test]
fn uclamp_user_return_failures_rejoin_the_worker_lane() {
    for error in [
        TaskSchedError::Unsupported,
        TaskSchedError::RunQueueUnavailable(0),
    ] {
        assert!(UclampReconcileFailure::from_task_sched(error).is_some());
    }
    assert!(UclampReconcileFailure::from_task_sched(TaskSchedError::TaskExited).is_none());
}

#[test]
fn v1_controller_parser_rejects_unimplemented_controllers() {
    assert_eq!(
        parse_v1_controllers("none", "pids").unwrap(),
        ["pids".to_string()]
    );
    assert_eq!(
        parse_v1_controllers("memory", "").unwrap_err(),
        Error::NoSuchDevice
    );
    assert_eq!(
        parse_v1_controllers("none", "pids,memory").unwrap_err(),
        Error::NoSuchDevice
    );
    assert_eq!(
        parse_v1_controllers("none", "unknown").unwrap_err(),
        Error::InvalidInput
    );
}

#[test]
fn v2_advertises_only_pids_and_exposes_domain_liveness_controls() {
    let (forest, dir) = test_cgroup_v2();
    let registry = PidMembershipRegistry::with_limits(4, 4);

    assert_eq!(text(&registry, &forest, dir, ControlFile::Controllers).unwrap(), "pids\n");
    assert_eq!(
        text(&registry, &forest, dir, ControlFile::Events).unwrap(),
        "populated 0\nfrozen 0\n"
    );
    assert_eq!(text(&registry, &forest, dir, ControlFile::Freeze).unwrap(), "0\n");
    assert!(forest.control_file_visible(dir, control_file_named(b"cgroup.type").unwrap()));
    assert!(!forest.control_file_visible(dir, control_file_named(b"cpu.uclamp.min").unwrap()));
    assert!(!forest.cpu_controller_active(dir));
}

#[test]
fn v2_freeze_rejects_fork_and_allows_existing_process_migration() {
    let (mut forest, root) = test_cgroup_v2();
    let child = create(&mut forest, root, b"frozen");
    let mut registry = PidMembershipRegistry::with_limits(4, 4);

    assert_eq!(
        registry.set_frozen(&mut forest, &SYNTHETIC, child, b"1\n"),
        Ok((true, vec![]))
    );
    assert_eq!(attach(&mut registry, &mut forest, child, 101, false), Ok(true));
    assert_eq!(
        registry.prepare_charge_from(&mut forest, 101, 202).err(),
        Some(Error::ResourceBusy)
    );
    assert_eq!(
        registry.set_frozen(&mut forest, &SYNTHETIC, child, b"0\n"),
        Ok((false, vec![101]))
    );
    assert_eq!(
        text(&registry, &forest, child, ControlFile::Events).unwrap(),
        "populated 1\nfrozen 0\n"
    );
}

#[test]
fn membership_publish_updates_both_indexes() {
    let mut registry = PidMembershipRegistry::with_limits(4, 4);
    let (mut forest, target) = test_cgroup_dir();

    assert_eq!(attach(&mut registry, &mut forest, target, 101, false), Ok(true));
    assert!(holds(&forest, target, 101));
    assert!(maps_to(&registry, &forest, 101, target));
    assert_eq!(forest.dirs[target].pids_peak, 1);
}

#[test]
fn fork_admission_stays_invisible_to_readers_until_one_commit() {
    let mut registry = PidMembershipRegistry::with_limits(4, 4);
    let (mut forest, target) = test_cgroup_dir();
    attach(&mut registry, &mut forest, target, 101, false).unwrap();
    let mut admission = registry.prepare_charge_from(&mut forest, 101, 202).unwrap();

    // Both capacity/identity slots exist, but cgroup.procs, cgroup.kill,
    // pids.current, and the reverse PID lookup all use these filtered reader
    // paths and must still observe only the parent.
    assert_eq!(registry.membership_count(), 2);
    assert_eq!(forest.pid_count(target), 2);
    assert!(!maps_to(&registry, &forest, 202, target));
    assert_eq!(live(&registry, &forest, target), [101]);
    assert_eq!(text(&registry, &forest, target, ControlFile::Tasks).unwrap(), "101\n");
    assert_eq!(count(&registry, &forest, target), 1);

    assert!(!registry.commit(&mut forest, &SYNTHETIC, &mut admission, None, &vec![]));
    assert!(admission.committed);
    assert!(maps_to(&registry, &forest, 202, target));
    assert_eq!(live(&registry, &forest, target), [101, 202]);
    assert!(text(&registry, &forest, target, ControlFile::Tasks)
        .unwrap()
        .contains("202\n"));
    assert_eq!(count(&registry, &forest, target), 2);
    assert_eq!(forest.dirs[target].pids_peak, 2);
}

#[test]
fn dropped_fork_admission_refunds_exact_hidden_slots_and_capacity() {
    let mut registry = PidMembershipRegistry::with_limits(2, 2);
    let (mut forest, target) = test_cgroup_dir();
    attach(&mut registry, &mut forest, target, 101, false).unwrap();

    let first = registry.prepare_charge_from(&mut forest, 101, 202).unwrap();
    assert_eq!(
        registry.prepare_charge_from(&mut forest, 101, 303).err(),
        Some(Error::NoMemory)
    );
    registry.rollback(&mut forest, &first);

    assert!(!knows(&registry, &forest, 202));
    assert!(!holds(&forest, target, 202));
    assert_eq!(count(&registry, &forest, target), 1);
    assert_eq!(forest.dirs[target].pids_peak, 1);

    let mut second = registry.prepare_charge_from(&mut forest, 101, 303).unwrap();
    registry.commit(&mut forest, &SYNTHETIC, &mut second, None, &vec![]);
    assert!(maps_to(&registry, &forest, 303, target));
    assert_eq!(count(&registry, &forest, target), 2);
}

#[test]
fn fork_drop_keeps_both_indexes_when_target_identity_changes() {
    let mut registry = PidMembershipRegistry::with_limits(4, 4);
    let (mut forest, target) = test_cgroup_dir();
    attach(&mut registry, &mut forest, target, 101, false).unwrap();
    let admission = registry.prepare_charge_from(&mut forest, 101, 202).unwrap();

    registry.publications.push(false);
    forest.insert_pid(target, 202, registry.publications.len() - 1);
    registry.rollback(&mut forest, &admission);

    assert!(knows(&registry, &forest, 202));
    assert!(holds(&forest, target, 202));
    assert_eq!(registry.membership_count(), 2);
    assert_eq!(forest.pid_count(target), 2);
}

#[test]
fn fork_drop_keeps_both_indexes_when_global_identity_changes() {
    let mut registry = PidMembershipRegistry::with_limits(4, 4);
    let (mut forest, target) = test_cgroup_dir();
    attach(&mut registry, &mut forest, target, 101, false).unwrap();
    let admission = registry.prepare_charge_from(&mut forest, 101, 202).unwrap();
    let reserved = forest.pid_publication(target, 202).unwrap();

    // The registry's entry is replaced by another one, and the directory's is the one
    // that was reserved.
    registry.rollback(&mut forest, &admission);
    let _ = registry.prepare_charge_from(&mut forest, 101, 202).unwrap();
    assert_ne!(forest.pid_publication(target, 202), Some(reserved));
    forest.insert_pid(target, 202, reserved);
    registry.rollback(&mut forest, &admission);

    assert!(knows(&registry, &forest, 202));
    assert!(holds(&forest, target, 202));
    assert_eq!(registry.membership_count(), 2);
    assert_eq!(forest.pid_count(target), 2);
}

#[test]
fn pending_fork_is_charged_to_pids_max_without_becoming_visible() {
    let mut registry = PidMembershipRegistry::with_limits(4, 4);
    let (mut forest, target) = test_cgroup_dir();
    attach(&mut registry, &mut forest, target, 101, false).unwrap();
    forest.set_pids_limit(target, Some(2));

    let pending = registry.prepare_charge_from(&mut forest, 101, 202).unwrap();
    assert_eq!(count(&registry, &forest, target), 1);
    assert_eq!(
        registry.prepare_charge_from(&mut forest, 101, 303).err(),
        Some(Error::WouldBlock)
    );
    assert_eq!(forest.dirs[target].pids_events_limit, 1);

    registry.rollback(&mut forest, &pending);
    let mut second = registry.prepare_charge_from(&mut forest, 101, 303).unwrap();
    registry.commit(&mut forest, &SYNTHETIC, &mut second, None, &vec![]);
    assert!(maps_to(&registry, &forest, 303, target));
}

#[test]
fn concurrent_fork_commits_keep_peak_at_or_above_current() {
    // Commits are serialized by the registry, so both orders are tried.
    for swapped in [false, true] {
        let mut registry = PidMembershipRegistry::with_limits(4, 4);
        let (mut forest, target) = test_cgroup_dir();
        attach(&mut registry, &mut forest, target, 101, false).unwrap();
        let mut first = registry.prepare_charge_from(&mut forest, 101, 202).unwrap();
        let mut second = registry.prepare_charge_from(&mut forest, 101, 303).unwrap();
        if swapped {
            core::mem::swap(&mut first, &mut second);
        }
        registry.commit(&mut forest, &SYNTHETIC, &mut first, None, &vec![]);
        assert_eq!(forest.dirs[target].pids_peak, 2);
        registry.commit(&mut forest, &SYNTHETIC, &mut second, None, &vec![]);

        assert_eq!(count(&registry, &forest, target), 3);
        assert_eq!(forest.dirs[target].pids_peak, 3);
    }
}

#[test]
fn target_limit_failure_preserves_old_membership() {
    let mut registry = PidMembershipRegistry::with_limits(4, 1);
    let (mut forest, root) = test_cgroup_dir();
    let old = create(&mut forest, root, b"old");
    let target = create(&mut forest, root, b"target");
    attach(&mut registry, &mut forest, old, 101, false).unwrap();
    attach(&mut registry, &mut forest, target, 202, false).unwrap();

    assert_eq!(
        attach(&mut registry, &mut forest, target, 101, false),
        Err(Error::NoMemory)
    );
    assert!(holds(&forest, old, 101));
    assert!(!holds(&forest, target, 101));
    assert!(holds(&forest, target, 202));
    assert!(maps_to(&registry, &forest, 101, old));
    assert!(maps_to(&registry, &forest, 202, target));
}

#[test]
fn global_limit_failure_does_not_publish_target_membership() {
    let mut registry = PidMembershipRegistry::with_limits(1, 4);
    let (mut forest, root) = test_cgroup_dir();
    let old = create(&mut forest, root, b"old");
    let target = create(&mut forest, root, b"target");
    attach(&mut registry, &mut forest, old, 101, false).unwrap();

    assert_eq!(
        attach(&mut registry, &mut forest, target, 202, false),
        Err(Error::NoMemory)
    );
    assert!(!holds(&forest, target, 202));
    assert!(maps_to(&registry, &forest, 101, old));
    assert_eq!(registry.membership_count(), 1);
}

#[test]
fn migration_is_atomic_and_same_target_attach_is_idempotent() {
    let mut registry = PidMembershipRegistry::with_limits(4, 4);
    let (mut forest, root) = test_cgroup_dir();
    let old = create(&mut forest, root, b"old");
    let target = create(&mut forest, root, b"target");
    attach(&mut registry, &mut forest, old, 101, false).unwrap();

    assert_eq!(attach(&mut registry, &mut forest, target, 101, false), Ok(true));
    assert!(!holds(&forest, old, 101));
    assert!(holds(&forest, target, 101));
    assert!(maps_to(&registry, &forest, 101, target));
    assert_eq!(registry.membership_count(), 1);

    assert_eq!(attach(&mut registry, &mut forest, target, 101, false), Ok(false));
    assert_eq!(forest.pid_count(target), 1);
    assert_eq!(registry.membership_count(), 1);
}

#[test]
fn fork_admission_failure_does_not_publish_or_update_counters() {
    let mut registry = PidMembershipRegistry::with_limits(0, 1);
    let (mut forest, target) = test_cgroup_dir();

    assert_eq!(
        attach(&mut registry, &mut forest, target, 101, true),
        Err(Error::NoMemory)
    );
    assert_eq!(forest.pid_count(target), 0);
    assert_eq!(registry.membership_count(), 0);
    assert_eq!(forest.dirs[target].pids_peak, 0);
    assert_eq!(forest.dirs[target].pids_events_limit, 0);
}

#[test]
fn pids_max_rejection_increments_limit_event_once() {
    let mut registry = PidMembershipRegistry::with_limits(1, 1);
    let (mut forest, target) = test_cgroup_dir();
    forest.set_pids_limit(target, Some(0));

    assert_eq!(
        attach(&mut registry, &mut forest, target, 101, true),
        Err(Error::WouldBlock)
    );
    assert_eq!(forest.pid_count(target), 0);
    assert_eq!(registry.membership_count(), 0);
    assert_eq!(forest.dirs[target].pids_peak, 0);
    assert_eq!(forest.dirs[target].pids_events_limit, 1);
}

#[test]
fn child_slot_limit_rejects_growth_but_allows_same_map_rename_admission() {
    let (mut forest, root) = test_cgroup_dir();
    try_reserve_cgroup_child_slot(&forest.dirs[root].children, 1, true).unwrap();
    create(&mut forest, root, b"child");

    assert_eq!(
        try_reserve_cgroup_child_slot(&forest.dirs[root].children, 1, true),
        Err(Error::NoMemory)
    );
    assert_eq!(
        try_reserve_cgroup_child_slot(&forest.dirs[root].children, 1, false),
        Ok(())
    );
    assert!(try_reserve_cgroup_child_slot(&forest.dirs[root].children, 2, true).is_ok());
}

#[test]
fn cgroup_rename_preserves_identity_and_updates_cross_parent_membership() {
    let registry = PidMembershipRegistry::with_limits(4, 4);
    let (mut forest, root) = test_cgroup_dir();
    let src_parent = create(&mut forest, root, b"src-parent");
    let dst_parent = create(&mut forest, root, b"dst-parent");
    let child = create(&mut forest, src_parent, b"child");
    let wrong = create(&mut forest, src_parent, b"wrong");
    let child_inode = forest.dirs[child].inode;
    let src_epoch = forest.dirs[src_parent].namespace_epoch;
    let dst_epoch = forest.dirs[dst_parent].namespace_epoch;

    assert_eq!(
        registry
            .rename(
                &mut forest,
                &SYNTHETIC,
                true,
                src_parent,
                b"child",
                Entry::Dir(wrong),
                dst_parent,
                b"moved",
                None,
                4,
            )
            .unwrap_err(),
        Error::NotFound
    );
    assert_eq!(forest.dirs[src_parent].namespace_epoch, src_epoch);
    assert_eq!(forest.dirs[dst_parent].namespace_epoch, dst_epoch);
    assert_eq!(inode(&forest, src_parent, b"child"), child_inode);
    assert_eq!(forest.lookup(dst_parent, b"moved").unwrap_err(), Error::NotFound);

    registry
        .rename(
            &mut forest,
            &SYNTHETIC,
            true,
            src_parent,
            b"child",
            Entry::Dir(child),
            dst_parent,
            b"moved",
            None,
            5,
        )
        .unwrap();
    assert_eq!(forest.lookup(src_parent, b"child").unwrap_err(), Error::NotFound);
    assert_eq!(inode(&forest, dst_parent, b"moved"), child_inode);
    assert_eq!(forest.parent_index(child), Some(dst_parent));
    assert_eq!(forest.dirs[src_parent].namespace_epoch, src_epoch + 1);
    assert_eq!(forest.dirs[dst_parent].namespace_epoch, dst_epoch + 1);

    let no_op_epoch = forest.dirs[dst_parent].namespace_epoch;
    registry
        .rename(
            &mut forest,
            &SYNTHETIC,
            true,
            dst_parent,
            b"moved",
            Entry::Dir(child),
            dst_parent,
            b"moved",
            Some(Entry::Dir(child)),
            6,
        )
        .unwrap();
    assert_eq!(forest.dirs[dst_parent].namespace_epoch, no_op_epoch);
    assert_eq!(inode(&forest, dst_parent, b"moved"), child_inode);
}

#[test]
fn cgroup_v1_rename_uses_one_timestamp_for_source_and_parents() {
    let registry = PidMembershipRegistry::with_limits(4, 4);
    let (mut forest, root) = test_cgroup_dir();
    let old_parent = create(&mut forest, root, b"old-parent");
    let new_parent = create(&mut forest, root, b"new-parent");
    let source = create(&mut forest, old_parent, b"source");
    install_rename_timestamp_sentinels(&mut forest, &[old_parent, new_parent], source);

    registry
        .rename(
            &mut forest,
            &SYNTHETIC,
            true,
            old_parent,
            b"source",
            Entry::Dir(source),
            new_parent,
            b"renamed",
            None,
            7,
        )
        .unwrap();

    let source_metadata = metadata_state(&forest, source);
    let old_parent_metadata = metadata_state(&forest, old_parent);
    let new_parent_metadata = metadata_state(&forest, new_parent);
    assert_ne!(source_metadata.ctime, SENTINEL);
    assert_eq!(old_parent_metadata.mtime, source_metadata.ctime);
    assert_eq!(old_parent_metadata.ctime, source_metadata.ctime);
    assert_eq!(new_parent_metadata.mtime, source_metadata.ctime);
    assert_eq!(new_parent_metadata.ctime, source_metadata.ctime);
}

#[test]
fn cgroup_v1_same_parent_rename_touches_source_and_parent_together() {
    let registry = PidMembershipRegistry::with_limits(4, 4);
    let (mut forest, root) = test_cgroup_dir();
    let source = create(&mut forest, root, b"source");
    install_rename_timestamp_sentinels(&mut forest, &[root], source);

    registry
        .rename(
            &mut forest,
            &SYNTHETIC,
            true,
            root,
            b"source",
            Entry::Dir(source),
            root,
            b"renamed",
            None,
            7,
        )
        .unwrap();

    let source_metadata = metadata_state(&forest, source);
    let parent_metadata = metadata_state(&forest, root);
    assert_ne!(source_metadata.ctime, SENTINEL);
    assert_eq!(parent_metadata.mtime, source_metadata.ctime);
    assert_eq!(parent_metadata.ctime, source_metadata.ctime);
}

#[test]
fn failed_and_unsupported_cgroup_rename_preserve_metadata() {
    let registry = PidMembershipRegistry::with_limits(4, 4);
    let (mut forest, root) = test_cgroup_dir();
    let source = create(&mut forest, root, b"source");
    let victim = create(&mut forest, root, b"victim");
    install_rename_timestamp_sentinels(&mut forest, &[root], source);
    forest.dirs[victim].metadata.update(
        MetadataUpdate {
            ctime: Some(SENTINEL),
            ..NO_CHANGE
        },
        3,
    );
    let parent_before = metadata_state(&forest, root);
    let source_before = metadata_state(&forest, source);
    let victim_before = metadata_state(&forest, victim);

    assert_eq!(
        registry
            .rename(
                &mut forest,
                &SYNTHETIC,
                true,
                root,
                b"source",
                Entry::Dir(source),
                root,
                b"victim",
                Some(Entry::Dir(victim)),
                7,
            )
            .unwrap_err(),
        Error::AlreadyExists
    );
    assert_eq!(metadata_state(&forest, root), parent_before);
    assert_eq!(metadata_state(&forest, source), source_before);
    assert_eq!(metadata_state(&forest, victim), victim_before);

    let (mut v2, v2_root) = test_cgroup_v2();
    let v2_source = create(&mut v2, v2_root, b"source");
    install_rename_timestamp_sentinels(&mut v2, &[v2_root], v2_source);
    let v2_parent_before = metadata_state(&v2, v2_root);
    let v2_source_before = metadata_state(&v2, v2_source);

    assert_eq!(
        registry
            .rename(
                &mut v2,
                &SYNTHETIC,
                true,
                v2_root,
                b"source",
                Entry::Dir(v2_source),
                v2_root,
                b"renamed",
                None,
                7,
            )
            .unwrap_err(),
        Error::OperationNotPermitted
    );
    assert_eq!(metadata_state(&v2, v2_root), v2_parent_before);
    assert_eq!(metadata_state(&v2, v2_source), v2_source_before);
}

#[test]
fn cgroup_unlink_rejects_a_hidden_fork_membership() {
    let (mut forest, root) = test_cgroup_dir();
    let child = create(&mut forest, root, b"child");
    forest.insert_pid(child, 202, 0);

    assert_eq!(
        forest.unlink(root, b"child", None, true, 7).unwrap_err(),
        Error::ResourceBusy
    );
    assert_eq!(inode(&forest, root, b"child"), forest.dirs[child].inode);
}

#[test]
fn cgroup_mutation_capabilities_match_versioned_backends() {
    let (forest, root) = test_cgroup_dir();

    assert!(forest.supports_rmdir());
    assert!(forest.supports_rename(root));
    assert!(forest.supports_named_create(NodeType::Directory));
    for node_type in [
        NodeType::Unknown,
        NodeType::Fifo,
        NodeType::CharacterDevice,
        NodeType::BlockDevice,
        NodeType::RegularFile,
        NodeType::Symlink,
        NodeType::Socket,
    ] {
        assert!(!forest.supports_named_create(node_type));
    }

    let (v2, v2_root) = test_cgroup_v2();
    assert!(v2.supports_rmdir());
    assert!(!v2.supports_rename(v2_root));
    assert!(v2.supports_named_create(NodeType::Directory));
    assert!(!v2.supports_named_create(NodeType::RegularFile));
}

#[test]
fn controllers_are_parsed_from_the_source_and_the_options() {
    assert_eq!(parse_v1_controllers(" pids ", "rw,nosuid").unwrap(), ["pids".to_string()]);
    assert_eq!(parse_v1_controllers("none", "").unwrap(), ["pids".to_string()]);
    assert_eq!(parse_v1_controllers("pids,pids", ""), Err(Error::NoSuchDevice));
    assert_eq!(parse_v1_controllers("pids", "cpu"), Err(Error::NoSuchDevice));
    assert_eq!(
        proc_cgroups_snapshot(),
        "#subsys_name\thierarchy\tnum_cgroups\tenabled\npids\t1\t1\t1\n"
    );
    assert_eq!(join_names(&vec!["a".to_string(), "b".to_string()]), "a b\n");
}

#[test]
fn a_hierarchy_is_mounted_once() {
    let mut forest = Forest::new();
    let first = new_cgroup_v1(&mut forest, vec!["pids".to_string()], 1).unwrap();
    let second = new_cgroup_v1(&mut forest, vec!["pids".to_string()], 9).unwrap();
    assert_eq!(first, second);
    assert_eq!(forest.dirs.len(), 1);
    let unified = new_cgroup_v2(&mut forest, 1).unwrap();
    assert_ne!(unified.root, first.root);
    for name in ["a", "b"] {
        new_cgroup_v1(&mut forest, vec![name.to_string()], 1).unwrap();
    }
    assert_eq!(
        new_cgroup_v1(&mut forest, vec!["c".to_string()], 1),
        Err(Error::NoMemory)
    );
}

#[test]
fn a_namespace_shows_its_own_roots() {
    let mut forest = Forest::new();
    let mut registry = PidMembershipRegistry::with_limits(8, 8);
    let initial = forest.root_namespace_roots(1).unwrap();
    let v1 = new_cgroup_v1(&mut forest, vec!["pids".to_string()], 1).unwrap();
    let v2 = new_cgroup_v2(&mut forest, 1).unwrap();
    let inner = create(&mut forest, v2.root, b"inner");
    let leaf = create(&mut forest, inner, b"leaf");
    assert!(registry.cgroup_namespace_roots(&forest, 7, 40).is_none());
    let mut policy = UclampPolicy::new();
    assert_eq!(
        registry.try_attach_process(
            &mut forest,
            &mut policy,
            &RegistryValidation::ProductionIdentity(owner_table(&vec![(7, 40)])),
            inner,
            7,
            40,
            41,
            &vec![],
        ),
        Ok(true)
    );
    assert_eq!(policy.generation, 4);
    let roots = registry.cgroup_namespace_roots(&forest, 7, 40).unwrap();
    let held = vec![true; forest.dirs.len()];
    assert_eq!(new_cgroup_v2_for_namespace(&mut forest, &held, &roots, 2).unwrap().root, inner);
    let pids = || vec!["pids".to_string()];
    assert_eq!(new_cgroup_v1_for_namespace(&mut forest, &held, pids(), &roots, 2), Ok(v1));
    assert_eq!(new_cgroup_v2_for_namespace(&mut forest, &held, &initial, 2), Ok(v2));
    assert_eq!(forest.cgroup_relative_path(&held, leaf, inner), b"/leaf");
    assert_eq!(forest.cgroup_relative_path(&held, leaf, v2.root), b"/inner/leaf");
    assert_eq!(forest.cgroup_relative_path(&held, v2.root, inner), b"/..");
    assert_eq!(registry.proc_cgroup_membership(&forest, &held, 7, 40, &initial), b"0::/inner\n");
    assert_eq!(registry.proc_cpuset_membership(&forest, &held, 7, 40, &initial), b"/inner\n");
    assert_eq!(registry.proc_cgroup_membership(&forest, &[], 7, 40, &initial), b"0::/\n");
    assert_eq!(registry.proc_cpuset_membership(&forest, &held, 7, 99, &initial), b"/\n");
    assert_eq!(registry.process_while_operating(forest.hierarchies.len(), 7, 40), Some(41));
    assert_eq!(registry.get_v2_while_operating(&forest, 7, 40), Some(inner));
    assert_eq!(registry.get_v2_while_operating(&forest, 7, 99), None);
}

#[test]
fn a_directory_without_its_entry_has_no_name_and_no_mount() {
    let mut forest = Forest::new();
    let registry = PidMembershipRegistry::with_limits(8, 8);
    let initial = forest.root_namespace_roots(1).unwrap();
    let v1 = new_cgroup_v1(&mut forest, vec!["pids".to_string()], 1).unwrap();
    let v2 = new_cgroup_v2(&mut forest, 1).unwrap();
    let inner = create(&mut forest, v2.root, b"inner");
    let leaf = create(&mut forest, inner, b"leaf");
    let mut roots = forest.live_roots();
    roots.roots[v2.hierarchy] = inner;

    // Only the leaf's entry is held: the directory above it takes no place in a path.
    let mut held = vec![false; forest.dirs.len()];
    held[leaf] = true;
    assert_eq!(forest.cgroup_relative_path(&held, leaf, v2.root), b"/leaf");
    assert_eq!(forest.cgroup_relative_path(&held, inner, v2.root), b"/");
    assert_eq!(forest.cgroup_relative_path(&[], leaf, inner), b"/");
    assert_eq!(
        new_cgroup_v2_for_namespace(&mut forest, &held, &roots, 2),
        Err(Error::InvalidInput)
    );
    assert_eq!(
        CgroupMountView::try_new(&forest, &held, v2.hierarchy, inner),
        Err(Error::InvalidInput)
    );
    // A hierarchy holds the entry of its own root.
    assert_eq!(new_cgroup_v2_for_namespace(&mut forest, &held, &initial, 2), Ok(v2));
    let pids = vec!["pids".to_string()];
    assert_eq!(new_cgroup_v1_for_namespace(&mut forest, &held, pids, &roots, 2), Ok(v1));
    held[inner] = true;
    assert_eq!(
        new_cgroup_v2_for_namespace(&mut forest, &held, &roots, 2).unwrap().root,
        inner
    );

    // Nothing new is made in such a directory, and nothing leaves it.
    assert_eq!(
        forest.create_named(false, inner, b"more", directory(), true, 3),
        Err(Error::InvalidInput)
    );
    assert_eq!(
        forest.create_named(false, inner, b"leaf", directory(), false, 3),
        Ok((Entry::Dir(leaf), false))
    );
    let from = create(&mut forest, v1.root, b"from");
    let moved = create(&mut forest, from, b"moved");
    let mut rename = |held: bool, to: usize| {
        registry.rename(
            &mut forest,
            &SYNTHETIC,
            held,
            from,
            b"moved",
            Entry::Dir(moved),
            to,
            b"renamed",
            None,
            4,
        )
    };
    assert_eq!(rename(false, v1.root), Err(Error::InvalidInput));
    assert_eq!(rename(false, from), Ok(()));
    assert_eq!(forest.lookup(from, b"renamed"), Ok(Entry::Dir(moved)));
}

#[test]
fn names_that_cannot_be_used_are_refused() {
    let (mut forest, root) = test_cgroup_dir();
    let made = create(&mut forest, root, b"a");
    let refusal = |forest: &mut Forest, name: &[u8], options, exclusive| {
        forest.create_named(true, root, name, options, exclusive, 3).err()
    };
    assert_eq!(
        refusal(&mut forest, &[b'x'; 256], directory(), true),
        Some(Error::NameTooLong)
    );
    assert_eq!(refusal(&mut forest, b"a\nb", directory(), true), Some(Error::InvalidInput));
    assert_eq!(refusal(&mut forest, b"a", directory(), true), Some(Error::AlreadyExists));
    assert_eq!(refusal(&mut forest, b"tasks", directory(), true), Some(Error::AlreadyExists));
    let file = NamedCreateOptions { directory: false, ..directory() };
    assert_eq!(refusal(&mut forest, b"b", file, true), Some(Error::OperationNotPermitted));
    assert_eq!(
        forest.create_named(true, root, b"a", directory(), false, 3),
        Ok((Entry::Dir(made), false))
    );
    assert_eq!(
        forest.create_named(true, root, b"tasks", directory(), false, 3),
        Ok((Entry::File(root, ControlFile::Tasks), false))
    );
    assert_eq!(
        forest.unlink(root, b"tasks", None, false, 3),
        Err(Error::OperationNotPermitted)
    );
    assert_eq!(forest.unlink(root, b"zz", None, true, 3), Err(Error::NotFound));
    assert_eq!(forest.unlink(root, b"a", None, false, 3), Err(Error::IsADirectory));
    create(&mut forest, made, b"below");
    assert_eq!(forest.unlink(root, b"a", None, true, 3), Err(Error::DirectoryNotEmpty));
    forest.unlink(made, b"below", None, true, 3).unwrap();
    forest.unlink(root, b"a", Some(Entry::Dir(made)), true, 3).unwrap();
    assert_eq!(forest.lookup(root, b"a"), Err(Error::NotFound));
}

#[test]
fn a_directory_lists_its_files_and_children() {
    let (mut forest, root) = test_cgroup_dir();
    let child = create(&mut forest, root, b"child");
    let records = forest.read_dir(root, 0);
    assert_eq!(records[0].name, b".");
    assert_eq!(records[1].name, b"..");
    assert!(records.iter().any(|r| r.name == b"pids.max" && !r.directory));
    let listed = &records[2];
    assert_eq!((listed.name.as_slice(), listed.directory), (b"child".as_slice(), true));
    assert_eq!(listed.inode, forest.dirs[child].inode);
    let last = records.last().unwrap();
    // A listing goes on where it stopped.
    let rest = forest.read_dir(root, records[1].next);
    assert_eq!(rest.len(), records.len() - 2);
    assert_eq!(forest.read_dir(root, last.next).len(), 0);
}

#[test]
fn a_limit_that_is_written_is_read() {
    let registry = PidMembershipRegistry::with_limits(4, 4);
    let (mut forest, root) = test_cgroup_dir();
    let dir = create(&mut forest, root, b"limited");
    let mut policy = UclampPolicy::new();
    let mut write = |forest: &mut Forest, file: ControlFile, data: &[u8]| {
        registry.write_text(forest, &mut policy, &SYNTHETIC, dir, file, data)
    };
    assert!(matches!(
        write(&mut forest, ControlFile::PidsMax, b" 12\n"),
        Ok(WriteAction::Done)
    ));
    assert_eq!(text(&registry, &forest, dir, ControlFile::PidsMax).unwrap(), "12\n");
    assert!(matches!(
        write(&mut forest, ControlFile::PidsMax, b"max"),
        Ok(WriteAction::Done)
    ));
    assert_eq!(text(&registry, &forest, dir, ControlFile::PidsMax).unwrap(), "max\n");
    assert_eq!(
        write(&mut forest, ControlFile::PidsMax, b"-1").err(),
        Some(Error::InvalidInput)
    );
    assert_eq!(
        write(&mut forest, ControlFile::PidsMax, &[0xff, 0xfe]).err(),
        Some(Error::InvalidInput)
    );
    assert!(matches!(
        write(&mut forest, ControlFile::Tasks, b"77\n"),
        Ok(WriteAction::Attach(77))
    ));
    assert_eq!(
        text(&registry, &forest, dir, ControlFile::UclampMin).err(),
        Some(Error::NotFound)
    );
}

#[test]
fn subtree_control_hands_the_controller_down() {
    let mut registry = PidMembershipRegistry::with_limits(4, 4);
    let (mut forest, root) = test_cgroup_v2();
    let child = create(&mut forest, root, b"child");
    assert_eq!(text(&registry, &forest, child, ControlFile::PidsMax), Err(Error::NotFound));
    registry
        .update_subtree_control(&mut forest, &SYNTHETIC, root, b"+pids")
        .unwrap();
    assert_eq!(text(&registry, &forest, root, ControlFile::SubtreeControl).unwrap(), "pids\n");
    assert_eq!(text(&registry, &forest, child, ControlFile::PidsMax).unwrap(), "max\n");
    assert_eq!(
        registry.update_subtree_control(&mut forest, &SYNTHETIC, root, b"+memory"),
        Err(Error::NotFound)
    );
    assert_eq!(
        registry.update_subtree_control(&mut forest, &SYNTHETIC, root, b"-memory"),
        Err(Error::OperationNotSupported)
    );
    assert_eq!(
        registry.update_subtree_control(&mut forest, &SYNTHETIC, root, b"pids"),
        Err(Error::InvalidInput)
    );
    // A directory whose children are controlled takes no members of its own.
    let grandchild = create(&mut forest, child, b"grandchild");
    registry
        .update_subtree_control(&mut forest, &SYNTHETIC, child, b"+pids")
        .unwrap();
    assert_eq!(
        attach(&mut registry, &mut forest, child, 5, false),
        Err(Error::ResourceBusy)
    );
    assert_eq!(attach(&mut registry, &mut forest, grandchild, 5, false), Ok(true));
    assert_eq!(text(&registry, &forest, root, ControlFile::Events).unwrap(), "populated 1\nfrozen 0\n");
}

#[test]
fn migration_asks_for_rights() {
    let (forest, root) = test_cgroup_dir();
    assert_eq!(check_migration(&forest, root, Migration::NoProcess), Err(Error::NotFound));
    assert_eq!(check_migration(&forest, root, Migration::NoCredentials), Err(Error::Io));
    let known = |same_namespace, namespace_capable, allowed| Migration::Known {
        same_namespace,
        namespace_capable,
        allowed,
    };
    assert_eq!(
        check_migration(&forest, root, known(false, false, true)),
        Err(Error::NotFound)
    );
    assert_eq!(
        check_migration(&forest, root, known(true, false, false)),
        Err(Error::PermissionDenied)
    );
    assert_eq!(check_migration(&forest, root, known(false, true, true)), Ok(()));
    let opener = OpenCredentials { uid: 1, euid: 2, suid: 3, fsuid: 4 };
    let target = TargetIds { ruid: 9, euid: 8, suid: 7 };
    assert!(!can_migrate_with_credentials(opener, false, target));
    assert!(can_migrate_with_credentials(opener, true, target));
    assert!(can_migrate_with_credentials(opener, false, TargetIds { suid: 4, ..target }));
}

#[test]
fn clamps_narrow_through_the_parents() {
    let (mut forest, root) = test_cgroup_v2();
    let outer = create(&mut forest, root, b"outer");
    let inner = create(&mut forest, outer, b"inner");
    forest.set_uclamp_bounds(outer, (200, 700));
    forest.set_uclamp_bounds(inner, (100, 900));
    let mut policy = UclampPolicy::new();
    assert_eq!(policy.set_sched_util_clamp(ClampControl::Minimum, 300), Ok(4));
    assert_eq!(
        policy.set_sched_util_clamp(ClampControl::Maximum, 200),
        Err(Error::InvalidInput)
    );
    let constraints = uclamp_constraints(policy.controls, &forest, Some(inner));
    assert_eq!(constraints.system_minimum, 300);
    assert_eq!((constraints.cgroup_minimum, constraints.cgroup_maximum), (300, 700));
    let outside = uclamp_constraints(policy.controls, &forest, None);
    assert_eq!((outside.cgroup_minimum, outside.cgroup_maximum), (0, 1024));
}

#[test]
fn a_pass_that_failed_is_retried() {
    let mut policy = UclampPolicy::new();
    let generation = policy.set_sched_util_clamp(ClampControl::Minimum, 1).unwrap();
    let (failure, record) = policy.republish_task(Ok(()), generation, generation, None);
    assert_eq!((failure, record), (None, true));
    let (failure, record) =
        policy.republish_task(Err(TaskSchedError::Scheduler), generation, generation, None);
    assert_eq!((failure, record), (Some(UclampReconcileFailure::Scheduler), false));
    assert_eq!(policy.pending, generation);
    let claimed = claim_uclamp_reconcile_pending(&mut policy.pending).unwrap();
    assert_eq!(policy.drain_outcome(claimed, failure), UclampReconcileDrain::Retry(UclampReconcileFailure::Scheduler));
    assert_eq!(policy.drain_outcome(claimed, None), UclampReconcileDrain::Converged);
    assert_eq!(
        policy.drain_failed(claimed),
        UclampReconcileDrain::Retry(UclampReconcileFailure::Scheduler)
    );
    assert_eq!(policy.pending, claimed);
    assert!(!policy.reconcile_current(Err(TaskSchedError::TaskExited), generation));
}

#[test]
fn kills_reach_the_processes_below() {
    let mut registry = PidMembershipRegistry::with_limits(8, 8);
    let (mut forest, root) = test_cgroup_dir();
    let outer = create(&mut forest, root, b"outer");
    let inner = create(&mut forest, outer, b"inner");
    let owners = vec![(5, 50), (6, 60), (7, 70)];
    let validation = RegistryValidation::ProductionIdentity(owner_table(&owners));
    let mut policy = UclampPolicy::new();
    for (dir, pid, identity) in [(outer, 5, 50), (inner, 6, 60), (root, 7, 70)] {
        registry
            .try_attach_process(
                &mut forest,
                &mut policy,
                &validation,
                dir,
                pid,
                identity,
                1000 + identity,
                &vec![],
            )
            .unwrap();
    }
    let mut processes = registry.attached_processes(&forest, owner_table(&owners), outer);
    processes.sort_unstable();
    assert_eq!(processes, [1050, 1060]);
    // A number that another process has since taken is not followed.
    let taken = owner_table(&vec![(5, 50), (6, 61)]);
    assert_eq!(registry.attached_processes(&forest, taken, outer), [1050]);
    registry.detach(&mut forest, 5, 50);
    assert!(!holds(&forest, outer, 5));
    let held = vec![true; forest.dirs.len()];
    assert_eq!(
        String::from_utf8(
            registry.proc_cgroup_membership(&forest, &held, 6, 60, &forest.live_roots())
        )
        .unwrap(),
        "1:pids:/outer/inner\n"
    );
}

#[test]
fn member_lists_are_read_in_pieces() {
    let list = tasks_text(&vec![1, 23, 456]);
    assert_eq!(list, b"1\n23\n456\n");
    assert_eq!(read_text_at(&list, 2, 3), b"23\n");
    assert_eq!(read_text_at(&list, 7, 100), b"6\n");
    assert_eq!(read_text_at(&list, 99, 4), b"");
}

#[test]
fn control_files_are_found_by_name() {
    assert_eq!(control_file_named(b"pids.max"), Some(ControlFile::PidsMax));
    assert_eq!(control_file_named(b"pids.maximum"), None);
    assert_eq!(ControlFile::Kill.name(), "cgroup.kill");
    assert!(ControlFile::PidsCurrent.is_read_only());
    assert!(!ControlFile::PidsMax.is_read_only());
    assert_eq!(ControlFile::PidsMax.set_len(0), Ok(()));
    assert_eq!(ControlFile::PidsMax.set_len(1), Err(Error::InvalidInput));
}

/// Puts a process with an identity of its own into a directory.
fn attach_process(
    registry: &mut PidMembershipRegistry,
    forest: &mut Forest,
    owners: &Vec<(u64, usize)>,
    dir: usize,
    pid: u64,
    identity: usize,
) {
    let validation = RegistryValidation::ProductionIdentity(owner_table(owners));
    registry
        .try_attach_process(
            forest,
            &mut UclampPolicy::new(),
            &validation,
            dir,
            pid,
            identity,
            1000 + identity,
            &vec![],
        )
        .unwrap();
}

#[test]
fn ancestors_are_listed_from_the_root() {
    let (mut forest, root) = test_cgroup_v2();
    let outer = create(&mut forest, root, b"outer");
    let inner = create(&mut forest, outer, b"inner");
    let aside = create(&mut forest, root, b"aside");
    let inodes: Vec<u64> = [root, outer, inner].iter().map(|dir| forest.dirs[*dir].inode).collect();
    assert_eq!(forest.bpf_cgroup_hierarchy(inner), Ok(inodes));
    assert_eq!(forest.cgroup_ancestor_chain(inner), [inner, outer, root]);
    assert_eq!((forest.hierarchy_depth(inner), forest.hierarchy_depth(root)), (Ok(2), Ok(0)));
    assert_eq!((forest.subtree_height(root), forest.subtree_height(inner)), (2, 0));
    assert!(forest.is_below(inner, root) && !forest.is_below(aside, outer));
    let (v1, top) = test_cgroup_dir();
    assert_eq!(v1.bpf_cgroup_hierarchy(top), Err(Error::InvalidInput));
}

#[test]
fn a_reused_number_leaves_its_place() {
    let mut registry = PidMembershipRegistry::with_limits(8, 8);
    let (mut forest, root) = test_cgroup_v2();
    let inner = create(&mut forest, root, b"inner");
    attach_process(&mut registry, &mut forest, &vec![(5, 50)], inner, 5, 50);
    assert_eq!(registry.get_v2(&mut forest, 5, 50), Some(inner));
    assert_eq!(registry.memberships_for_process(&forest, 5, 50), [(0, inner)]);
    // Another process with the number has no part in it.
    assert_eq!(registry.get_v2(&mut forest, 5, 51), None);
    assert!(!holds(&forest, inner, 5));
    assert_eq!(registry.membership_count(), 0);
}

#[test]
fn the_cpuset_path_is_told() {
    let mut registry = PidMembershipRegistry::with_limits(8, 8);
    let mut forest = Forest::new();
    let pids = new_cgroup_v1(&mut forest, vec!["pids".to_string()], 1).unwrap();
    let cpuset = new_cgroup_v1(&mut forest, vec!["cpuset".to_string()], 1).unwrap();
    let set = create(&mut forest, cpuset.root, b"set");
    let owners = vec![(5, 50)];
    let roots = forest.live_roots();
    let held = vec![true; forest.dirs.len()];
    assert_eq!(registry.proc_cpuset_membership(&forest, &held, 5, 50, &roots), b"/\n");
    attach_process(&mut registry, &mut forest, &owners, pids.root, 5, 50);
    attach_process(&mut registry, &mut forest, &owners, set, 5, 50);
    assert_eq!(registry.proc_cpuset_membership(&forest, &held, 5, 50, &roots), b"/set\n");
    assert_eq!(registry.proc_cpuset_membership(&forest, &held, 5, 51, &roots), b"/\n");
}

#[test]
fn a_fork_into_another_directory_takes_its_clamps() {
    let mut registry = PidMembershipRegistry::with_limits(8, 8);
    let (mut forest, root) = test_cgroup_v2();
    let target = create(&mut forest, root, b"target");
    forest.set_uclamp_bounds(target, (100, 600));
    attach_process(&mut registry, &mut forest, &vec![(5, 50)], root, 5, 50);
    assert_eq!(
        registry
            .prepare_fork_attach_from(&mut forest, 5, Err(Error::NotFound), target, 6, 60)
            .err(),
        Some(Error::NotFound)
    );
    let mut admission = registry
        .prepare_fork_attach_from(&mut forest, 5, Ok(50), target, 6, 60)
        .unwrap();
    assert_eq!(admission.reservations, [(0, target)]);
    assert!(live(&registry, &forest, target).is_empty());
    let controls = SchedUtilClampControls::unrestricted();
    let constraints = uclamp_constraints_for_fork_admission(controls, &forest, &admission);
    assert_eq!((constraints.cgroup_minimum, constraints.cgroup_maximum), (100, 600));
    assert!(!registry.commit(&mut forest, &SYNTHETIC, &mut admission, None, &vec![]));
    assert_eq!(live(&registry, &forest, target), [6]);
    assert_eq!(live(&registry, &forest, root), [5]);
    // Only the unified hierarchy can be forked into.
    let (mut v1, top) = test_cgroup_dir();
    let mut empty = PidMembershipRegistry::with_limits(8, 8);
    assert_eq!(
        empty.prepare_fork_attach_from(&mut v1, 5, Ok(50), top, 6, 60).err(),
        Some(Error::InvalidInput)
    );
}

#[test]
fn a_removed_directory_gives_its_numbers_back() {
    let (mut forest, root) = test_cgroup_dir();
    let gone = create(&mut forest, root, b"gone");
    forest.unlink(root, b"gone", None, true, 3).unwrap();
    assert!(forest.lookup(root, b"gone").is_err());
    assert!(forest.dirs[gone].live);
    forest.release_dir(gone);
    assert!(!forest.dirs[gone].live);
    let made = create(&mut forest, root, b"gone");
    assert_ne!(made, gone);
    assert_eq!(inode(&forest, root, b"gone"), forest.dirs[made].inode);
}

#[test]
fn a_freeze_names_everyone_below() {
    let mut registry = PidMembershipRegistry::with_limits(8, 8);
    let (mut forest, root) = test_cgroup_v2();
    let outer = create(&mut forest, root, b"outer");
    let inner = create(&mut forest, outer, b"inner");
    attach(&mut registry, &mut forest, root, 1, false).unwrap();
    attach(&mut registry, &mut forest, outer, 2, false).unwrap();
    attach(&mut registry, &mut forest, inner, 3, false).unwrap();
    let (frozen, mut driven) =
        registry.set_frozen(&mut forest, &SYNTHETIC, outer, b" 1\n").unwrap();
    driven.sort_unstable();
    assert_eq!((frozen, driven), (true, vec![2, 3]));
    assert!(forest.is_effectively_frozen(inner));
    assert!(!forest.is_effectively_frozen(root));
    assert_eq!(
        registry.set_frozen(&mut forest, &SYNTHETIC, outer, b"2"),
        Err(Error::InvalidInput)
    );
    assert!(forest.is_effectively_frozen(outer));
}

#[test]
fn a_removed_directory_still_takes_names() {
    let (mut forest, root) = test_cgroup_dir();
    let registry = PidMembershipRegistry::with_limits(8, 8);
    let gone = create(&mut forest, root, b"gone");
    forest.unlink(root, b"gone", None, true, 3).unwrap();
    let inner = create(&mut forest, gone, b"inner");
    assert_eq!(forest.lookup(gone, b"inner"), Ok(Entry::Dir(inner)));
    assert_eq!(forest.hierarchy_depth(inner), Ok(2));
    assert!(forest.is_below(inner, gone) && !forest.is_below(inner, root));
    // It can be taken back into the tree.
    registry
        .rename(
            &mut forest,
            &SYNTHETIC,
            true,
            gone,
            b"inner",
            Entry::Dir(inner),
            root,
            b"back",
            None,
            4,
        )
        .unwrap();
    assert!(forest.is_below(inner, root));
    let left = create(&mut forest, gone, b"left");
    forest.release_dir(gone);
    // A control file of it that is still open is of no use.
    assert_eq!(
        text(&registry, &forest, gone, ControlFile::PidsMax),
        Err(Error::InvalidInput)
    );
    assert_eq!(
        registry
            .write_text(
                &mut forest,
                &mut UclampPolicy::new(),
                &SYNTHETIC,
                gone,
                ControlFile::PidsMax,
                b"3",
            )
            .err(),
        Some(Error::InvalidInput)
    );
    assert!(forest.lookup(gone, b"left").is_err());
    assert_eq!(forest.hierarchy_depth(left), Ok(0));
}

#[test]
fn the_deepest_directory_takes_nothing_more() {
    let (mut forest, root) = test_cgroup_dir();
    let registry = PidMembershipRegistry::with_limits(8, 8);
    let aside = create(&mut forest, root, b"aside");
    let mut dir = root;
    for _ in 0..255 {
        dir = create(&mut forest, dir, b"d");
    }
    assert!(!forest.is_effectively_frozen(dir));
    assert!(!forest.is_same_or_descendant_of(dir, aside));
    let deepest = create(&mut forest, dir, b"d");
    assert_eq!(forest.hierarchy_depth(deepest), Ok(256));
    assert!(forest.is_effectively_frozen(deepest));
    assert!(forest.is_same_or_descendant_of(deepest, aside));
    assert_eq!(
        forest.create_named(true, deepest, b"d", directory(), true, 2),
        Err(Error::FilesystemLoop)
    );
    let mut rename = |to: usize| {
        registry.rename(
            &mut forest,
            &SYNTHETIC,
            true,
            root,
            b"aside",
            Entry::Dir(aside),
            to,
            b"moved",
            None,
            3,
        )
    };
    assert_eq!(rename(deepest), Err(Error::InvalidInput));
    assert_eq!(rename(aside), Err(Error::InvalidInput));
    assert_eq!(rename(dir), Ok(()));
    assert_eq!(forest.cgroup_ancestor_chain(aside).len(), 257);
}

#[test]
fn directories_are_known_by_their_identities() {
    let mut registry = PidMembershipRegistry::with_limits(8, 8);
    let (mut forest, root) = test_cgroup_v2();
    let outer = create(&mut forest, root, b"outer");
    let inner = create(&mut forest, outer, b"inner");
    let aside = create(&mut forest, root, b"aside");
    let identity = forest.perf_cgroup_fd_identity(outer).unwrap();
    assert_eq!(identity, forest.dirs[outer].inode);
    attach_process(&mut registry, &mut forest, &vec![(5, 50)], inner, 5, 50);
    let dir = registry.get_v2(&mut forest, 5, 50);
    assert!(!forest.perf_cgroup_contains(dir, identity));
    assert!(forest.perf_cgroup_contains(dir, forest.dirs[inner].inode));
    assert!(forest.bpf_current_in_cgroup(dir, identity));
    assert!(!forest.bpf_current_in_cgroup(dir, forest.dirs[aside].inode));
    assert_eq!(forest.bpf_current_cgroup_hierarchy(dir).unwrap().len(), 3);
    assert_eq!(forest.bpf_current_cgroup_hierarchy(None), Ok(vec![]));
    assert!(!forest.perf_cgroup_contains(None, identity));
    let (v1, top) = test_cgroup_dir();
    assert_eq!(v1.perf_cgroup_fd_identity(top), Err(Error::InvalidInput));
}

#[test]
fn a_fork_goes_only_where_processes_may_be() {
    let mut registry = PidMembershipRegistry::with_limits(8, 8);
    let (mut forest, root) = test_cgroup_v2();
    let outer = create(&mut forest, root, b"outer");
    let inner = create(&mut forest, outer, b"inner");
    let mut policy = UclampPolicy::new();
    attach_process(&mut registry, &mut forest, &vec![(5, 50)], root, 5, 50);
    for dir in [root, outer] {
        registry
            .write_text(
                &mut forest,
                &mut policy,
                &SYNTHETIC,
                dir,
                ControlFile::SubtreeControl,
                b"+pids",
            )
            .unwrap();
    }
    let mut into = |forest: &mut Forest, target: usize| {
        registry
            .prepare_fork_charge_into(forest, 5, Ok(50), target, 6, 60)
            .map(|admission| admission.reservations)
    };
    assert_eq!(into(&mut forest, outer).err(), Some(Error::ResourceBusy));
    assert_eq!(into(&mut forest, inner), Ok(vec![(0, inner)]));
    let (mut v1, top) = test_cgroup_dir();
    let mut empty = PidMembershipRegistry::with_limits(8, 8);
    assert_eq!(
        empty.prepare_fork_charge_into(&mut v1, 5, Ok(50), top, 6, 60).err(),
        Some(Error::InvalidInput)
    );
}

#[test]
fn a_process_is_in_one_directory_of_a_hierarchy() {
    let mut registry = PidMembershipRegistry::with_limits(8, 8);
    let (mut forest, root) = test_cgroup_dir();
    let a = create(&mut forest, root, b"a");
    let b = create(&mut forest, root, b"b");
    for target in [a, b, root, b, b] {
        attach(&mut registry, &mut forest, target, 7, false).unwrap();
        for dir in [root, a, b] {
            assert_eq!(holds(&forest, dir, 7), dir == target);
        }
        assert!(maps_to(&registry, &forest, 7, target));
        assert_eq!(registry.membership_count(), 1);
    }
    // A fork that is prepared, committed or rolled back leaves nothing out of step.
    let mut kept = registry.prepare_charge_from(&mut forest, 7, 8).unwrap();
    registry.commit(&mut forest, &SYNTHETIC, &mut kept, None, &vec![]);
    let lost = registry.prepare_charge_from(&mut forest, 7, 9).unwrap();
    registry.rollback(&mut forest, &lost);
    attach(&mut registry, &mut forest, a, 8, false).unwrap();
    assert!(maps_to(&registry, &forest, 8, a) && !holds(&forest, b, 8));
    assert!(!knows(&registry, &forest, 9) && !holds(&forest, b, 9));
    // Nor does an attach that fails.
    assert_eq!(
        PidMembershipRegistry::with_limits(0, 0).try_attach_locked(
            &mut forest,
            &SYNTHETIC,
            a,
            9,
            false
        ),
        Err(Error::NoMemory)
    );
    assert!(!holds(&forest, a, 9));
}

#[test]
fn a_rename_onto_itself_changes_nothing() {
    let registry = PidMembershipRegistry::with_limits(4, 4);
    let (mut forest, root) = test_cgroup_dir();
    let source = create(&mut forest, root, b"source");
    install_rename_timestamp_sentinels(&mut forest, &[root], source);
    let before = (metadata_state(&forest, root), metadata_state(&forest, source));
    let epoch = forest.dirs[root].namespace_epoch;
    let mut rename = |src: Entry, dst: Option<Entry>| {
        registry.rename(
            &mut forest,
            &SYNTHETIC,
            true,
            root,
            b"source",
            src,
            root,
            b"source",
            dst,
            7,
        )
    };
    assert_eq!(rename(Entry::Dir(source), Some(Entry::Dir(source))), Ok(()));
    assert_eq!(
        rename(Entry::Dir(root), Some(Entry::Dir(source))),
        Err(Error::NotFound)
    );
    let after = (metadata_state(&forest, root), metadata_state(&forest, source));
    assert_eq!(after, before);
    assert_eq!(forest.dirs[root].namespace_epoch, epoch);
}

#[test]
fn a_control_file_keeps_its_own_inode() {
    let (mut forest, root) = test_cgroup_dir();
    let registry = PidMembershipRegistry::with_limits(4, 4);
    let made = |mode: u16| NodeMetadata::new(mode, 1);
    assert_eq!(forest.file_metadata(root, ControlFile::Tasks), Ok(made(0o644)));
    assert_eq!(forest.file_metadata(root, ControlFile::PidsCurrent), Ok(made(0o444)));
    // What cannot be seen has no inode to speak of.
    assert_eq!(forest.file_metadata(root, ControlFile::Kill), Err(Error::NotFound));
    let owner = MetadataUpdate {
        owner: Some((7, 8)),
        ..NO_CHANGE
    };
    forest.update_file_metadata(root, ControlFile::Tasks, owner, 5).unwrap();
    let tasks = forest.file_metadata(root, ControlFile::Tasks).unwrap();
    assert_eq!((tasks.uid, tasks.gid, tasks.ctime, tasks.mtime), (7, 8, 5, 1));
    assert_eq!(forest.file_metadata(root, ControlFile::Procs), Ok(made(0o644)));
    assert_eq!(metadata_state(&forest, root), made(0o755));
    assert_eq!(
        forest.update_file_metadata(root, ControlFile::Kill, owner, 5),
        Err(Error::NotFound)
    );
    forest.update_metadata(root, owner, 6);
    assert_eq!(metadata_state(&forest, root).ctime, 6);
    assert_eq!(ControlFile::UclampMax.number(), 13);

    let limit = registry.read_text(&forest, &SYNTHETIC, root, ControlFile::PidsMax, &vec![]);
    assert_eq!(shown_size(&limit), 4);
    assert_eq!(shown_size(&Err(Error::NotFound)), 0);

    // Nor has one of a directory that was let go.
    let gone = create(&mut forest, root, b"gone");
    forest.unlink(root, b"gone", None, true, 7).unwrap();
    forest.release_dir(gone);
    assert_eq!(forest.file_metadata(gone, ControlFile::Tasks), Err(Error::InvalidInput));
}
