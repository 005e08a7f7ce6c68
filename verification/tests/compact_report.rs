use std::collections::{BTreeMap, HashMap, HashSet};

use hummock_core::commit_epoch::{CommitEpochInfo, Error, HummockManager, NewTableFragmentInfo};
use hummock_core::compact_report::TaskStatus;
use hummock_core::compaction::{release_task, CompactionInput, InputLevel};
use hummock_core::group_delta::DeltaType;
use hummock_core::level_handler::LevelHandler;
use hummock_core::levels::{CompactionConfig, LevelType, SstableInfo};
use hummock_core::sst_grouping::ExtendedSstableInfo;

fn compaction_config() -> CompactionConfig {
    CompactionConfig {
        max_level: 6,
        max_bytes_for_level_base: 512,
        max_bytes_for_level_multiplier: 5,
        max_space_reclaim_bytes: 1024,
        target_file_size_base: 32,
    }
}

fn file(id: u64, table_ids: Vec<u32>) -> SstableInfo {
    SstableInfo { object_id: id, sst_id: id, file_size: 10, table_ids, ..Default::default() }
}

fn commit_files(
    manager: &mut HummockManager,
    epoch: u64,
    files: Vec<SstableInfo>,
    new_tables: Option<NewTableFragmentInfo>,
) {
    let mut tables: HashSet<u32> =
        manager.versioning.current_version.state_table_info.info().keys().cloned().collect();
    if let Some(new_tables) = &new_tables {
        tables.extend(new_tables.internal_table_ids.iter().cloned());
        tables.extend(new_tables.mv_table_id.iter().cloned());
    }
    let sstables: Vec<ExtendedSstableInfo> =
        files.into_iter().map(|f| ExtendedSstableInfo::with_compaction_group(2, f)).collect();
    let info = CommitEpochInfo::new(
        sstables,
        HashMap::new(),
        HashMap::new(),
        new_tables,
        HashMap::new(),
        BTreeMap::from([(epoch, tables)]),
        epoch,
    );
    assert!(manager.commits_single_cohort(&info));
    let plan = manager.commit_epoch(info, &HashSet::new(), 1000).unwrap().unwrap();
    manager.finish_commit(plan, true).unwrap();
}

// tables 1 and 2 are members of group 2, table 3 is a member of group 3;
// group 2 holds the files 11 and 12 in sub-level 20 and file 13 in
// sub-level 30
fn manager_with_files() -> HummockManager {
    let mut manager = HummockManager::new(&compaction_config(), 3);
    let new_tables =
        NewTableFragmentInfo { table_id: 0, mv_table_id: Some(3), internal_table_ids: vec![1, 2] };
    commit_files(&mut manager, 10, vec![], Some(new_tables));
    commit_files(&mut manager, 20, vec![file(11, vec![1]), file(12, vec![1, 2])], None);
    commit_files(&mut manager, 30, vec![file(13, vec![2])], None);
    manager
}

fn input_from_level_0(files: Vec<SstableInfo>, target_level: usize, target_sub_level_id: u64) -> CompactionInput {
    CompactionInput {
        input_levels: vec![
            InputLevel { level_idx: 0, level_type: LevelType::Overlapping, table_infos: files },
            InputLevel {
                level_idx: target_level as u32,
                level_type: LevelType::Nonoverlapping,
                table_infos: vec![],
            },
        ],
        target_level,
        target_sub_level_id,
        select_input_size: 20,
        target_input_size: 0,
        total_file_count: 2,
    }
}

fn ids(files: &[SstableInfo]) -> Vec<u64> {
    files.iter().map(|f| f.sst_id).collect()
}

#[test]
fn a_reported_task_moves_its_files_to_the_level_it_aimed_at() {
    let mut manager = manager_with_files();
    let before = manager.versioning.current_version.clone();
    let snapshot = manager.latest_snapshot;
    let input = input_from_level_0(vec![file(11, vec![1]), file(12, vec![1, 2])], 6, 0);
    let report = manager
        .report_compact_task(2, &input, TaskStatus::Success, vec![file(50, vec![1, 2])])
        .unwrap();
    // the delta follows the current version and leaves the epochs alone
    assert_eq!(report.delta.prev_id, before.id);
    assert_eq!(report.delta.id, before.id + 1);
    assert_eq!(report.delta.max_committed_epoch, 30);
    assert_eq!(report.delta.safe_epoch, before.safe_epoch);
    assert!(report.delta.state_table_info_delta.is_empty());
    assert!(report.delta.removed_table_ids.is_empty());
    assert_eq!(report.delta.group_deltas.len(), 1);
    let changes = &report.delta.group_deltas[&2].group_deltas;
    assert_eq!(changes.len(), 3);
    match &changes[0].delta_type {
        Some(DeltaType::IntraLevel(d)) => {
            assert_eq!(d.level_idx, 0);
            assert_eq!(d.removed_table_ids, vec![11, 12]);
            assert!(d.inserted_table_infos.is_empty());
        }
        other => panic!("unexpected change {:?}", other),
    }
    match &changes[1].delta_type {
        Some(DeltaType::IntraLevel(d)) => {
            assert_eq!(d.level_idx, 6);
            assert!(d.removed_table_ids.is_empty());
            assert!(d.inserted_table_infos.is_empty());
        }
        other => panic!("unexpected change {:?}", other),
    }
    match &changes[2].delta_type {
        Some(DeltaType::IntraLevel(d)) => {
            assert_eq!(d.level_idx, 6);
            assert!(d.removed_table_ids.is_empty());
            assert_eq!(d.inserted_table_infos, vec![file(50, vec![1, 2])]);
        }
        other => panic!("unexpected change {:?}", other),
    }
    // the report alone changes nothing
    assert_eq!(manager.versioning.current_version, before);
    let delta_id = report.delta.id;
    assert_eq!(manager.finish_compact_report(report, true), Ok(()));
    let version = &manager.versioning.current_version;
    assert_eq!(version.id, before.id + 1);
    assert_eq!(version.max_committed_epoch, 30);
    assert_eq!(version.safe_epoch, before.safe_epoch);
    assert_eq!(version.state_table_info, before.state_table_info);
    assert_eq!(manager.latest_snapshot, snapshot);
    assert!(manager.versioning.hummock_version_deltas.contains_key(&delta_id));
    let group = &version.levels[&2];
    // the sub-level that lost its files is gone
    assert_eq!(group.l0.sub_levels.len(), 1);
    assert_eq!(group.l0.sub_levels[0].sub_level_id, 30);
    assert_eq!(ids(&group.l0.sub_levels[0].table_infos), vec![13]);
    assert_eq!(group.levels[5].table_infos, vec![file(50, vec![1, 2])]);
    for level in &group.levels[..5] {
        assert!(level.table_infos.is_empty());
    }
    // the other group is as it was
    assert_eq!(version.levels[&3], before.levels[&3]);
}

#[test]
fn a_reported_task_can_write_into_a_sub_level_that_is_there() {
    let mut manager = manager_with_files();
    let input = input_from_level_0(vec![file(11, vec![1]), file(12, vec![1, 2])], 0, 30);
    let report = manager
        .report_compact_task(2, &input, TaskStatus::Success, vec![file(50, vec![1])])
        .unwrap();
    manager.finish_compact_report(report, true).unwrap();
    let group = &manager.versioning.current_version.levels[&2];
    assert_eq!(group.l0.sub_levels.len(), 1);
    assert_eq!(group.l0.sub_levels[0].sub_level_id, 30);
    let mut held = ids(&group.l0.sub_levels[0].table_infos);
    held.sort();
    assert_eq!(held, vec![13, 50]);
    // there is no sub-level 25, and sub-level 20 is gone with its files
    let manager = manager_with_files();
    for sub_level_id in [25, 20] {
        let input = input_from_level_0(vec![file(11, vec![1]), file(12, vec![1, 2])], 0, sub_level_id);
        assert!(manager
            .report_compact_task(2, &input, TaskStatus::Success, vec![file(50, vec![1])])
            .is_none());
    }
}

#[test]
fn a_task_that_did_not_succeed_changes_no_version() {
    let manager = manager_with_files();
    let input = input_from_level_0(vec![file(11, vec![1])], 6, 0);
    for status in [TaskStatus::ManualCanceled, TaskStatus::ExecuteFailed] {
        assert!(manager.report_compact_task(2, &input, status, vec![file(50, vec![1])]).is_none());
    }
    assert!(manager
        .report_compact_task(2, &input, TaskStatus::Success, vec![file(50, vec![1])])
        .is_some());
}

#[test]
fn a_report_that_does_not_fit_the_version_is_turned_away() {
    let manager = manager_with_files();
    let input = input_from_level_0(vec![file(11, vec![1])], 6, 0);
    // table 3 is a member of another group, table 9 of none
    for tables in [vec![3], vec![1, 3], vec![9]] {
        assert!(manager
            .report_compact_task(2, &input, TaskStatus::Success, vec![file(50, tables)])
            .is_none());
    }
    // there is no group 77
    assert!(manager.report_compact_task(77, &input, TaskStatus::Success, vec![]).is_none());
    // the groups have the levels 1 to 6
    let input = input_from_level_0(vec![file(11, vec![1])], 7, 0);
    assert!(manager
        .report_compact_task(2, &input, TaskStatus::Success, vec![file(50, vec![1])])
        .is_none());
    let input = input_from_level_0(vec![file(11, vec![1])], 6, 0);
    // a task may write nothing
    let report = manager.report_compact_task(2, &input, TaskStatus::Success, vec![]).unwrap();
    let group = &report.version.levels[&2];
    assert_eq!(ids(&group.l0.sub_levels[0].table_infos), vec![12]);
    assert!(group.levels[5].table_infos.is_empty());
}

#[test]
fn a_report_that_cannot_be_stored_changes_nothing() {
    let mut manager = manager_with_files();
    let before = manager.versioning.current_version.clone();
    let deltas = manager.versioning.hummock_version_deltas.len();
    let input = input_from_level_0(vec![file(11, vec![1]), file(12, vec![1, 2])], 6, 0);
    let report = manager
        .report_compact_task(2, &input, TaskStatus::Success, vec![file(50, vec![1, 2])])
        .unwrap();
    assert_eq!(manager.finish_compact_report(report, false), Err(Error::MetaStore));
    assert_eq!(manager.versioning.current_version, before);
    assert_eq!(manager.versioning.hummock_version_deltas.len(), deltas);
}

#[test]
fn a_released_task_frees_its_files_and_no_others() {
    let mut level_handlers: Vec<LevelHandler> = (0..7).map(LevelHandler::new).collect();
    let first = input_from_level_0(vec![file(11, vec![1]), file(12, vec![1, 2])], 6, 0);
    let second = input_from_level_0(vec![file(13, vec![2])], 6, 0);
    first.add_pending_task(7, &mut level_handlers);
    second.add_pending_task(8, &mut level_handlers);
    for id in [11, 12, 13] {
        assert!(level_handlers[0].is_pending_compact(&id));
    }
    release_task(&mut level_handlers, 7);
    assert!(!level_handlers[0].is_pending_compact(&11));
    assert!(!level_handlers[0].is_pending_compact(&12));
    assert_eq!(level_handlers[0].pending_task_id_by_sst(&13), Some(8));
    // the files can be given to another task
    first.add_pending_task(9, &mut level_handlers);
    assert_eq!(level_handlers[0].pending_task_id_by_sst(&11), Some(9));
    release_task(&mut level_handlers, 8);
    release_task(&mut level_handlers, 9);
    for id in [11, 12, 13] {
        assert!(!level_handlers[0].is_pending_compact(&id));
    }
    for (level, handler) in level_handlers.iter().enumerate() {
        assert_eq!(handler.get_level() as usize, level);
    }
}
