use std::collections::{BTreeMap, HashMap, HashSet, VecDeque};

use hummock_core::change_log::{EpochWatermark, TableWatermarks};
use hummock_core::commit_epoch::{
    aggregate_table_stats, CommitEpochInfo, CommitPlan, Error, HummockManager, HummockSnapshot,
    NewTableFragmentInfo,
};
use hummock_core::group_delta::DeltaType;
use hummock_core::levels::{CompactionConfig, SstableInfo};
use hummock_core::sst_grouping::{build_commit_group_deltas, ExtendedSstableInfo};
use hummock_core::sst_regroup::group_table_ids;
use hummock_core::state_table_info::StateTableInfo;
use hummock_core::table_stats::{
    add_prost_table_stats_map, purge_prost_table_stats, TableStats,
};
use hummock_core::test_utils::{
    add_ssts, commit_from_meta_node, generate_test_sstables_with_table_id, test_epoch,
    to_local_sstable_info,
};
use hummock_core::version::HummockVersion;

fn config() -> CompactionConfig {
    CompactionConfig {
        max_level: 6,
        max_bytes_for_level_base: 512,
        max_bytes_for_level_multiplier: 5,
        max_space_reclaim_bytes: 1024,
        target_file_size_base: 32,
    }
}

fn sst(id: u64, table_ids: Vec<u32>) -> SstableInfo {
    SstableInfo {
        object_id: id,
        sst_id: id,
        file_size: 10,
        table_ids,
        range_tombstone_count: 3,
        ..Default::default()
    }
}

fn stats(total_key_size: i64, total_value_size: i64, total_key_count: i64) -> TableStats {
    TableStats { total_key_size, total_value_size, total_key_count }
}

fn local(group: u64, id: u64, table_ids: Vec<u32>) -> ExtendedSstableInfo {
    ExtendedSstableInfo::with_compaction_group(group, sst(id, table_ids))
}

fn contexts() -> HashSet<u32> {
    HashSet::from([1, 2])
}

fn commit_info(
    manager: &HummockManager,
    epoch: u64,
    sstables: Vec<ExtendedSstableInfo>,
    new_tables: Option<NewTableFragmentInfo>,
) -> CommitEpochInfo {
    let mut tables: HashSet<u32> =
        manager.versioning.current_version.state_table_info.info().keys().cloned().collect();
    if let Some(new_tables) = &new_tables {
        tables.extend(new_tables.internal_table_ids.iter().cloned());
        tables.extend(new_tables.mv_table_id.iter().cloned());
    }
    let sst_to_context = sstables.iter().map(|s| (s.sst_info.object_id, 1)).collect();
    CommitEpochInfo::new(
        sstables,
        HashMap::new(),
        sst_to_context,
        new_tables,
        HashMap::new(),
        BTreeMap::from([(epoch, tables)]),
        epoch,
    )
}

fn commit(
    manager: &mut HummockManager,
    epoch: u64,
    sstables: Vec<ExtendedSstableInfo>,
    new_tables: Option<NewTableFragmentInfo>,
    new_sst_id: u64,
) -> Result<Option<HummockSnapshot>, Error> {
    let info = commit_info(manager, epoch, sstables, new_tables);
    assert!(manager.commits_single_cohort(&info));
    match manager.commit_epoch(info, &contexts(), new_sst_id)? {
        Some(plan) => manager.finish_commit(plan, true).map(Some),
        None => Ok(None),
    }
}

fn plan_of(manager: &HummockManager, info: CommitEpochInfo, new_sst_id: u64) -> CommitPlan {
    manager.commit_epoch(info, &contexts(), new_sst_id).unwrap().unwrap()
}

fn new_tables(mv: Option<u32>, internal: Vec<u32>) -> Option<NewTableFragmentInfo> {
    Some(NewTableFragmentInfo { table_id: 0, mv_table_id: mv, internal_table_ids: internal })
}

fn manager_with_tables() -> HummockManager {
    let mut manager = HummockManager::new(&config(), 3);
    // tables 1 and 2 keep state, table 3 holds a materialized view
    commit(&mut manager, 10, vec![], new_tables(Some(3), vec![1, 2]), 1000).unwrap();
    manager
}

fn inserted(manager_delta: &hummock_core::version::HummockVersionDelta, group: u64) -> Vec<SstableInfo> {
    let deltas = &manager_delta.group_deltas[&group].group_deltas;
    assert_eq!(deltas.len(), 1);
    match &deltas[0].delta_type {
        Some(DeltaType::IntraLevel(d)) => {
            assert_eq!(d.level_idx, 0);
            assert!(d.removed_table_ids.is_empty());
            d.inserted_table_infos.clone()
        }
        other => panic!("unexpected delta {:?}", other),
    }
}

#[test]
fn a_commit_registers_tables_in_their_groups() {
    let manager = manager_with_tables();
    let version = &manager.versioning.current_version;
    assert_eq!(version.id, 2);
    assert_eq!(version.max_committed_epoch, 10);
    assert_eq!(version.visible_table_safe_epoch(), 0);
    assert_eq!(
        *version.state_table_info.info(),
        HashMap::from([
            (1, StateTableInfo { committed_epoch: 10, safe_epoch: 10, compaction_group_id: 2 }),
            (2, StateTableInfo { committed_epoch: 10, safe_epoch: 10, compaction_group_id: 2 }),
            (3, StateTableInfo { committed_epoch: 10, safe_epoch: 10, compaction_group_id: 3 }),
        ])
    );
    assert_eq!(manager.latest_snapshot, HummockSnapshot { committed_epoch: 10, current_epoch: 10 });
    assert_eq!(manager.versioning.hummock_version_deltas.len(), 1);
    assert_eq!(manager.versioning.hummock_version_deltas[&2].prev_id, 1);
}

#[test]
fn a_commit_puts_files_into_level_0_of_their_groups() {
    let mut manager = manager_with_tables();
    // the files come in the order of groups 3, 2, 3, 2
    let snapshot = commit(
        &mut manager,
        20,
        vec![
            local(3, 101, vec![3]),
            local(2, 102, vec![1]),
            local(3, 103, vec![3]),
            local(2, 104, vec![1, 2]),
        ],
        None,
        1000,
    )
    .unwrap();
    assert_eq!(snapshot, Some(HummockSnapshot { committed_epoch: 20, current_epoch: 20 }));
    let version = &manager.versioning.current_version;
    assert_eq!(version.id, 3);
    assert_eq!(version.max_committed_epoch, 20);
    for table in [1, 2, 3] {
        assert_eq!(version.state_table_info.info()[&table].committed_epoch, 20);
        // the safe epoch of a recorded table stays
        assert_eq!(version.state_table_info.info()[&table].safe_epoch, 10);
    }
    let l0 = &version.levels[&2].l0;
    assert_eq!(l0.sub_levels.len(), 1);
    assert_eq!(l0.sub_levels[0].sub_level_id, 20);
    assert_eq!(l0.sub_levels[0].table_infos, vec![sst(102, vec![1]), sst(104, vec![1, 2])]);
    let l0 = &version.levels[&3].l0;
    assert_eq!(l0.sub_levels[0].table_infos, vec![sst(101, vec![3]), sst(103, vec![3])]);

    // the next commit makes the next sub-level
    commit(&mut manager, 30, vec![local(2, 105, vec![2])], None, 1000).unwrap();
    let l0 = &manager.versioning.current_version.levels[&2].l0;
    let ids: Vec<u64> = l0.sub_levels.iter().map(|l| l.sub_level_id).collect();
    assert_eq!(ids, vec![20, 30]);
}

#[test]
fn group_deltas_keep_the_order_within_a_group() {
    let (deltas, groups) = build_commit_group_deltas(
        vec![
            local(7, 1, vec![]),
            local(3, 2, vec![]),
            local(7, 3, vec![]),
            local(5, 4, vec![]),
            local(3, 5, vec![]),
            local(7, 6, vec![]),
        ],
        9,
    );
    assert_eq!(groups, vec![3, 5, 7]);
    assert_eq!(deltas.len(), 3);
    let ids = |group: u64| -> Vec<u64> {
        match &deltas[&group].group_deltas[0].delta_type {
            Some(DeltaType::IntraLevel(d)) => {
                assert_eq!(d.l0_sub_level_id, 9);
                d.inserted_table_infos.iter().map(|s| s.sst_id).collect()
            }
            _ => vec![],
        }
    };
    assert_eq!(ids(3), vec![2, 5]);
    assert_eq!(ids(5), vec![4]);
    assert_eq!(ids(7), vec![1, 3, 6]);
    let (deltas, groups) = build_commit_group_deltas(vec![], 9);
    assert!(deltas.is_empty());
    assert!(groups.is_empty());
}

#[test]
fn a_file_in_the_wrong_group_goes_to_the_group_of_its_tables() {
    let mut manager = manager_with_tables();
    // table 3 belongs to group 3, not to group 2; group 9 does not exist
    let info = commit_info(
        &manager,
        20,
        vec![local(2, 101, vec![3]), local(9, 102, vec![1, 2])],
        None,
    );
    assert_eq!(manager.new_sst_id_number(&info), Some(0));
    let plan = plan_of(&manager, info, 1000);
    assert_eq!(plan.modified_compaction_groups, vec![2, 3]);
    assert_eq!(inserted(&plan.delta, 3), vec![sst(101, vec![3])]);
    assert_eq!(inserted(&plan.delta, 2), vec![sst(102, vec![1, 2])]);
    manager.finish_commit(plan, true).unwrap();
}

#[test]
fn a_file_whose_tables_span_groups_is_split() {
    let manager = manager_with_tables();
    // tables 1 and 2 belong to group 2, table 3 to group 3, table 8 to none
    let info = commit_info(
        &manager,
        20,
        vec![local(2, 101, vec![3, 1, 8, 2]), local(2, 102, vec![1]), local(3, 103, vec![2, 3])],
        None,
    );
    assert_eq!(manager.new_sst_id_number(&info), Some(4));
    let plan = plan_of(&manager, info, 1000);
    let branch = |sst_id: u64, object_id: u64, table_ids: Vec<u32>| SstableInfo {
        sst_id,
        range_tombstone_count: 0,
        ..sst(object_id, table_ids)
    };
    // a copy for each group, with the tables of that group, a fresh id and no tombstone
    assert_eq!(
        inserted(&plan.delta, 2),
        vec![branch(1000, 101, vec![1, 2]), sst(102, vec![1]), branch(1002, 103, vec![2])]
    );
    assert_eq!(
        inserted(&plan.delta, 3),
        vec![branch(1001, 101, vec![3]), branch(1003, 103, vec![3])]
    );
    // every table of every file of the new version is a member of the group of the file
    for (group, levels) in &plan.version.levels {
        for level in levels.l0.sub_levels.iter().chain(levels.levels.iter()) {
            for sst in &level.table_infos {
                for table in &sst.table_ids {
                    assert_eq!(
                        plan.version.state_table_info.info()[table].compaction_group_id,
                        *group
                    );
                }
            }
        }
    }
    // a file without a table that is known goes away
    let info = commit_info(&manager, 20, vec![local(9, 104, vec![8])], None);
    assert_eq!(manager.new_sst_id_number(&info), Some(0));
    let plan = plan_of(&manager, info, 1000);
    assert!(plan.delta.group_deltas.is_empty());
    assert!(plan.modified_compaction_groups.is_empty());
}

#[test]
fn tables_are_grouped_in_the_order_of_their_groups() {
    let mapping = HashMap::from([(1, 5), (2, 3), (3, 5), (4, 9), (6, 3)]);
    assert_eq!(
        group_table_ids(&vec![1, 2, 3, 4, 5, 6, 1], &mapping),
        vec![(3, vec![2, 6]), (5, vec![1, 3, 1]), (9, vec![4])]
    );
    assert_eq!(group_table_ids(&vec![7], &mapping), vec![]);
}

#[test]
fn commits_take_the_committed_epoch_up() {
    let mut manager = HummockManager::new(&config(), 3);
    let mut epochs = vec![manager.versioning.current_version.max_committed_epoch];
    let mut safe_epochs = vec![manager.versioning.current_version.visible_table_safe_epoch()];
    let mut ids = vec![manager.versioning.current_version.id];
    commit(&mut manager, 10, vec![], new_tables(None, vec![1]), 1000).unwrap();
    for epoch in [11, 12, 500] {
        commit(&mut manager, epoch, vec![local(2, epoch, vec![1])], None, 1000).unwrap();
        epochs.push(manager.versioning.current_version.max_committed_epoch);
        safe_epochs.push(manager.versioning.current_version.visible_table_safe_epoch());
        ids.push(manager.versioning.current_version.id);
    }
    assert_eq!(epochs, vec![0, 11, 12, 500]);
    assert!(epochs.windows(2).all(|w| w[0] < w[1]));
    assert!(safe_epochs.windows(2).all(|w| w[0] <= w[1]));
    assert_eq!(ids, vec![1, 3, 4, 5]);
}

#[test]
fn replaying_the_deltas_makes_the_current_version() {
    let mut manager = manager_with_tables();
    commit(&mut manager, 20, vec![local(2, 101, vec![3, 1]), local(3, 102, vec![3])], None, 2000)
        .unwrap();
    commit(&mut manager, 30, vec![], new_tables(None, vec![7]), 3000).unwrap();
    commit(&mut manager, 40, vec![local(3, 103, vec![7, 3])], None, 4000).unwrap();
    let mut replayed = HummockVersion::create_init_version(&config());
    for (_, delta) in &manager.versioning.hummock_version_deltas {
        assert!(replayed.can_apply_version_delta(delta));
        replayed.apply_version_delta(delta);
    }
    assert_eq!(replayed, manager.versioning.current_version);
    assert_eq!(replayed.id, 5);
}

#[test]
fn a_commit_of_a_stale_epoch_is_turned_down() {
    let mut manager = manager_with_tables();
    let before = manager.versioning.current_version.clone();
    for epoch in [10, 9, 0] {
        assert_eq!(
            commit(&mut manager, epoch, vec![local(2, 101, vec![1])], None, 1000),
            Err(Error::EpochNotAfterCommitted { epoch, max_committed_epoch: 10 })
        );
    }
    assert_eq!(manager.versioning.current_version, before);
    assert_eq!(manager.latest_snapshot, HummockSnapshot { committed_epoch: 10, current_epoch: 10 });
}

#[test]
fn a_file_of_an_unknown_writer_is_turned_down() {
    let mut manager = manager_with_tables();
    let before = manager.versioning.current_version.clone();
    let mut info = commit_info(&manager, 20, vec![local(2, 101, vec![1]), local(2, 102, vec![1])], None);
    info.sst_to_context.insert(102, 77);
    let r = manager.commit_epoch(info, &contexts(), 1000);
    assert_eq!(r.unwrap_err(), Error::InvalidSst(102));
    assert_eq!(manager.versioning.current_version, before);
    // the test commit checks the writers too
    assert_eq!(
        manager.commit_epoch_for_test(
            20,
            vec![local(2, 101, vec![1])],
            HashMap::from([(101, 78)]),
            &contexts(),
            1000
        ),
        Err(Error::InvalidSst(101))
    );
    assert_eq!(manager.versioning.current_version, before);
}

#[test]
fn a_table_that_is_recorded_cannot_be_registered() {
    let mut manager = manager_with_tables();
    let before = manager.versioning.current_version.clone();
    let mut info = commit_info(&manager, 20, vec![], new_tables(Some(3), vec![7, 2, 1]));
    info.table_committed_epoch = BTreeMap::from([(20, HashSet::from([1, 2, 3, 7]))]);
    assert_eq!(
        manager.commit_epoch(info, &contexts(), 1000).unwrap_err(),
        Error::CompactionGroup(2)
    );
    let info = commit_info(&manager, 20, vec![], new_tables(Some(3), vec![7]));
    assert_eq!(
        manager.commit_epoch(info, &contexts(), 1000).unwrap_err(),
        Error::CompactionGroup(3)
    );
    assert_eq!(manager.versioning.current_version, before);
    // the table of a view that is also listed as internal goes to the group of views
    commit(&mut manager, 20, vec![], new_tables(Some(7), vec![7, 8]), 1000).unwrap();
    let info = manager.versioning.current_version.state_table_info.info();
    assert_eq!(info[&7].compaction_group_id, 3);
    assert_eq!(info[&8].compaction_group_id, 2);
}

#[test]
fn commits_are_turned_away_while_disabled() {
    let mut manager = manager_with_tables();
    manager.versioning.disable_commit_epochs = true;
    let before = manager.versioning.current_version.clone();
    assert_eq!(commit(&mut manager, 20, vec![local(2, 101, vec![1])], None, 1000), Ok(None));
    // even one that would else fail
    assert_eq!(commit(&mut manager, 5, vec![local(2, 101, vec![1])], None, 1000), Ok(None));
    assert_eq!(
        manager.commit_epoch_for_test(20, vec![], HashMap::new(), &contexts(), 1000),
        Ok(())
    );
    assert_eq!(manager.versioning.current_version, before);
    assert_eq!(manager.latest_snapshot, HummockSnapshot { committed_epoch: 10, current_epoch: 10 });
}

#[test]
fn a_commit_that_cannot_be_stored_changes_nothing() {
    let mut manager = manager_with_tables();
    let version = manager.versioning.current_version.clone();
    let stats = manager.versioning.version_stats.clone();
    let snapshot = manager.latest_snapshot;
    let info = commit_info(&manager, 20, vec![local(2, 101, vec![1, 3])], new_tables(None, vec![9]));
    let plan = plan_of(&manager, info, 1000);
    assert_eq!(plan.version.max_committed_epoch, 20);
    assert_eq!(manager.finish_commit(plan, false), Err(Error::MetaStore));
    assert_eq!(manager.versioning.current_version, version);
    assert_eq!(manager.versioning.current_version.max_committed_epoch, 10);
    assert_eq!(
        manager.versioning.current_version.state_table_info.to_protobuf(),
        version.state_table_info.to_protobuf()
    );
    assert_eq!(
        *manager.versioning.current_version.state_table_info.compaction_group_member_tables(),
        *version.state_table_info.compaction_group_member_tables()
    );
    assert_eq!(manager.versioning.version_stats, stats);
    assert_eq!(manager.versioning.hummock_version_deltas.len(), 1);
    assert_eq!(manager.latest_snapshot, snapshot);
    // the same commit can be tried again
    assert_eq!(
        commit(&mut manager, 20, vec![local(2, 101, vec![1, 3])], new_tables(None, vec![9]), 1000),
        Ok(Some(HummockSnapshot { committed_epoch: 20, current_epoch: 20 }))
    );
}

#[test]
fn the_test_commit_commits_all_tables() {
    let mut manager = manager_with_tables();
    assert_eq!(
        manager.commit_epoch_for_test(
            20,
            vec![local(2, 101, vec![1]), local(2, 102, vec![3])],
            HashMap::from([(101, 1), (102, 2)]),
            &contexts(),
            1000
        ),
        Ok(())
    );
    let version = &manager.versioning.current_version;
    assert_eq!(version.max_committed_epoch, 20);
    assert_eq!(version.levels[&2].l0.sub_levels[0].table_infos, vec![sst(101, vec![1])]);
    assert_eq!(version.levels[&3].l0.sub_levels[0].table_infos, vec![sst(102, vec![3])]);
    assert_eq!(
        manager.commit_epoch_for_test(20, vec![], HashMap::new(), &contexts(), 1000),
        Err(Error::EpochNotAfterCommitted { epoch: 20, max_committed_epoch: 20 })
    );
}

#[test]
fn a_commit_must_commit_all_tables_at_one_epoch() {
    let manager = manager_with_tables();
    let mut info = commit_info(&manager, 20, vec![], new_tables(None, vec![7]));
    assert!(manager.commits_single_cohort(&info));
    info.table_committed_epoch = BTreeMap::from([(20, HashSet::from([1, 2, 3]))]);
    assert!(!manager.commits_single_cohort(&info));
    info.table_committed_epoch = BTreeMap::from([(20, HashSet::from([1, 2, 3, 7, 8]))]);
    assert!(!manager.commits_single_cohort(&info));
    info.table_committed_epoch = BTreeMap::from([(19, HashSet::from([1, 2, 3, 7]))]);
    assert!(!manager.commits_single_cohort(&info));
    info.table_committed_epoch =
        BTreeMap::from([(20, HashSet::from([1, 2, 3, 7])), (21, HashSet::new())]);
    assert!(!manager.commits_single_cohort(&info));
    info.table_committed_epoch = BTreeMap::new();
    assert!(!manager.commits_single_cohort(&info));
}

#[test]
fn statistics_are_added_up_and_purged() {
    let mut manager = manager_with_tables();
    let mut first = local(2, 101, vec![1, 2]);
    first.table_stats = HashMap::from([(1, stats(1, 2, 3)), (2, stats(10, 20, 30))]);
    let mut second = local(3, 102, vec![3]);
    second.table_stats = HashMap::from([(1, stats(100, 200, 300)), (8, stats(7, 7, 7))]);
    assert_eq!(
        aggregate_table_stats(&vec![
            ExtendedSstableInfo::new(2, sst(101, vec![1, 2]), first.table_stats.clone()),
            ExtendedSstableInfo::new(3, sst(102, vec![3]), second.table_stats.clone()),
        ]),
        HashMap::from([(1, stats(101, 202, 303)), (2, stats(10, 20, 30)), (8, stats(7, 7, 7))])
    );
    manager.versioning.version_stats.table_stats = HashMap::from([(2, stats(1, 1, 1))]);
    let info = commit_info(&manager, 20, vec![first, second], None);
    let plan = plan_of(&manager, info, 1000);
    assert_eq!(
        plan.table_stats_change,
        HashMap::from([(1, stats(101, 202, 303)), (2, stats(10, 20, 30)), (8, stats(7, 7, 7))])
    );
    // table 8 is not recorded: its statistics are dropped
    assert_eq!(
        plan.version_stats.table_stats,
        HashMap::from([(1, stats(101, 202, 303)), (2, stats(11, 21, 31))])
    );

    let mut sums = HashMap::from([(1, stats(i64::MAX, -5, 0))]);
    add_prost_table_stats_map(&mut sums, &HashMap::from([(1, stats(1, 2, 0)), (4, stats(1, 1, 1))]));
    assert_eq!(sums, HashMap::from([(1, stats(i64::MIN, -3, 0)), (4, stats(1, 1, 1))]));
    assert!(purge_prost_table_stats(&mut sums, &manager.versioning.current_version));
    assert_eq!(sums, HashMap::from([(1, stats(i64::MIN, -3, 0))]));
    assert!(!purge_prost_table_stats(&mut sums, &manager.versioning.current_version));
}

#[test]
fn the_history_of_writes_is_kept_short() {
    let mut manager = manager_with_tables();
    for round in 1..=5i64 {
        manager.collect_table_write_throughput(HashMap::from([(1, stats(round, 10 * round, 0))]));
    }
    manager.collect_table_write_throughput(HashMap::from([(2, stats(-1, 0, 0))]));
    assert_eq!(manager.history_table_throughput[&1], VecDeque::from([33, 44, 55]));
    assert_eq!(manager.history_table_throughput[&2], VecDeque::from([u64::MAX]));
    assert_eq!(manager.history_table_throughput.len(), 2);
}

#[test]
fn watermarks_of_a_commit_enter_the_version() {
    let mut manager = manager_with_tables();
    let mut info = commit_info(&manager, 20, vec![], None);
    info.new_table_watermarks.insert(
        1,
        TableWatermarks {
            watermarks: vec![EpochWatermark { epoch: 20, watermark: b"k".to_vec() }],
            ascending: false,
        },
    );
    let plan = plan_of(&manager, info, 1000);
    manager.finish_commit(plan, true).unwrap();
    assert_eq!(
        manager.versioning.current_version.table_watermarks[&1].watermarks,
        vec![EpochWatermark { epoch: 20, watermark: b"k".to_vec() }]
    );
}

#[test]
fn files_are_committed_on_behalf_of_the_manager() {
    assert_eq!(test_epoch(1), 65536);
    assert_eq!(test_epoch(13), 13 << 16);
    let mut manager = HummockManager::new(&config(), 3);
    commit(&mut manager, 10, vec![], new_tables(None, vec![1]), 1000).unwrap();
    let files = generate_test_sstables_with_table_id(20, 1, vec![7, 8]);
    assert_eq!(commit_from_meta_node(&mut manager, 20, to_local_sstable_info(&files), 1000), Ok(()));
    assert_eq!(manager.versioning.current_version.max_committed_epoch, 20);
    assert_eq!(manager.versioning.current_version.levels[&2].l0.sub_levels[0].table_infos, files);
    assert_eq!(
        commit_from_meta_node(&mut manager, 20, vec![], 1000),
        Err(Error::EpochNotAfterCommitted { epoch: 20, max_committed_epoch: 20 })
    );

    let added = add_ssts(30, &mut manager, 5, vec![9, 10, 11], 1000).unwrap();
    assert_eq!(added, generate_test_sstables_with_table_id(test_epoch(30), 1, vec![9, 10, 11]));
    let l0 = &manager.versioning.current_version.levels[&2].l0;
    assert_eq!(l0.sub_levels.len(), 2);
    assert_eq!(l0.sub_levels[1].sub_level_id, 30);
    assert_eq!(l0.sub_levels[1].table_infos, added);
    let version = manager.versioning.current_version.clone();
    assert_eq!(
        add_ssts(30, &mut manager, 5, vec![12], 1000),
        Err(Error::EpochNotAfterCommitted { epoch: 30, max_committed_epoch: 30 })
    );
    assert_eq!(manager.versioning.current_version, version);
}

#[test]
fn only_tables_that_share_a_group_count_for_the_throughput() {
    let manager = manager_with_tables();
    // tables 1 and 2 share group 2; table 3 is alone in group 3; table 8 is not recorded
    let kept = manager.throughput_stats(&HashMap::from([
        (1, stats(1, 1, 1)),
        (3, stats(3, 3, 3)),
        (8, stats(8, 8, 8)),
    ]));
    assert_eq!(kept, HashMap::from([(1, stats(1, 1, 1))]));
}
