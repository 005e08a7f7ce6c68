use std::collections::{BTreeSet, HashMap, HashSet};

use hummock_core::change_log::{
    ChangeLogDelta, EpochNewChangeLog, EpochWatermark, TableChangeLog, TableWatermarks,
};
use hummock_core::group_delta::{
    DeltaType, GroupConstruct, GroupDelta, GroupDeltas, IntraLevelDelta,
};
use hummock_core::levels::{CompactionConfig, LevelType, SstableInfo};
use hummock_core::state_table_info::{
    HummockVersionStateTableInfo, StateTableInfo, StateTableInfoDelta,
};
use hummock_core::version::{
    HummockVersion, HummockVersionDelta, StaticCompactionGroupId, FIRST_VERSION_ID,
};

fn config() -> CompactionConfig {
    CompactionConfig {
        max_level: 6,
        max_bytes_for_level_base: 512,
        max_bytes_for_level_multiplier: 5,
        max_space_reclaim_bytes: 1024,
        target_file_size_base: 32,
    }
}

fn info(committed_epoch: u64, safe_epoch: u64, compaction_group_id: u64) -> StateTableInfo {
    StateTableInfo { committed_epoch, safe_epoch, compaction_group_id }
}

fn delta(committed_epoch: u64, safe_epoch: u64, compaction_group_id: u64) -> StateTableInfoDelta {
    StateTableInfoDelta { committed_epoch, safe_epoch, compaction_group_id }
}

fn sst(id: u64, table_ids: Vec<u32>) -> SstableInfo {
    SstableInfo { object_id: id, sst_id: id, file_size: 10, table_ids, ..Default::default() }
}

fn keyed_sst(id: u64, left: &[u8]) -> SstableInfo {
    SstableInfo {
        object_id: id,
        sst_id: id,
        key_range: Some(hummock_core::levels::KeyRange {
            left: left.to_vec(),
            right: left.to_vec(),
            right_exclusive: false,
        }),
        ..Default::default()
    }
}

fn intra_level(
    level_idx: u32,
    l0_sub_level_id: u64,
    removed_table_ids: Vec<u64>,
    inserted_table_infos: Vec<SstableInfo>,
) -> GroupDelta {
    GroupDelta {
        delta_type: Some(DeltaType::IntraLevel(IntraLevelDelta {
            level_idx,
            l0_sub_level_id,
            removed_table_ids,
            inserted_table_infos,
        })),
    }
}

fn index_of(info: &HummockVersionStateTableInfo) -> HashMap<u64, BTreeSet<u32>> {
    let mut index: HashMap<u64, BTreeSet<u32>> = HashMap::new();
    for (table_id, info) in info.info() {
        index.entry(info.compaction_group_id).or_default().insert(*table_id);
    }
    index
}

#[test]
fn apply_delta_keeps_the_index_in_step_with_the_records() {
    let mut state = HummockVersionStateTableInfo::empty();
    let changed = state.apply_delta(
        &HashMap::from([(1, delta(5, 5, 2)), (2, delta(5, 5, 2)), (3, delta(5, 5, 3))]),
        &HashSet::new(),
    );
    assert_eq!(changed, HashMap::from([(1, None), (2, None), (3, None)]));
    assert_eq!(*state.compaction_group_member_tables(), index_of(&state));
    assert_eq!(state.compaction_group_member_table_ids(2), BTreeSet::from([1, 2]));
    assert_eq!(state.compaction_group_member_table_ids(3), BTreeSet::from([3]));
    assert_eq!(state.compaction_group_member_table_ids(9), BTreeSet::new());

    // table 2 moves to group 3, table 3 goes, table 4 comes, table 1 advances
    let changed = state.apply_delta(
        &HashMap::from([
            (1, delta(7, 6, 2)),
            (2, delta(7, 5, 3)),
            (3, delta(7, 7, 3)),
            (4, delta(7, 7, 5)),
        ]),
        &HashSet::from([3, 8]),
    );
    assert_eq!(
        changed,
        HashMap::from([
            (1, Some(info(5, 5, 2))),
            (2, Some(info(5, 5, 2))),
            (3, Some(info(5, 5, 3))),
            (4, None),
        ])
    );
    assert_eq!(
        *state.info(),
        HashMap::from([(1, info(7, 6, 2)), (2, info(7, 5, 3)), (4, info(7, 7, 5))])
    );
    assert_eq!(*state.compaction_group_member_tables(), index_of(&state));
    assert_eq!(
        *state.compaction_group_member_tables(),
        HashMap::from([
            (2, BTreeSet::from([1])),
            (3, BTreeSet::from([2])),
            (5, BTreeSet::from([4])),
        ])
    );
    assert_eq!(
        state.build_table_compaction_group_id(),
        HashMap::from([(1, 2), (2, 3), (4, 5)])
    );

    // the last table of a group goes: the group goes with it
    state.apply_delta(&HashMap::new(), &HashSet::from([4]));
    assert_eq!(*state.compaction_group_member_tables(), index_of(&state));
    assert!(!state.compaction_group_member_tables().contains_key(&5));
}

#[test]
fn state_table_info_is_stored_and_read_back() {
    let stored = HashMap::from([(1, info(7, 6, 2)), (2, info(7, 5, 3))]);
    let state = HummockVersionStateTableInfo::from_protobuf(&stored);
    assert_eq!(state.to_protobuf(), stored);
    assert_eq!(*state.compaction_group_member_tables(), index_of(&state));
    assert_eq!(
        *state.compaction_group_member_tables(),
        HashMap::from([(2, BTreeSet::from([1])), (3, BTreeSet::from([2]))])
    );
}

#[test]
fn a_delta_that_takes_an_epoch_back_regresses() {
    let state = HummockVersionStateTableInfo::from_protobuf(&HashMap::from([(1, info(7, 6, 2))]));
    let none = HashSet::new();
    assert!(!state.regresses(&HashMap::from([(1, delta(7, 6, 2))]), &none));
    assert!(!state.regresses(&HashMap::from([(1, delta(8, 7, 2)), (2, delta(1, 1, 2))]), &none));
    assert!(state.regresses(&HashMap::from([(1, delta(6, 6, 2))]), &none));
    assert!(state.regresses(&HashMap::from([(1, delta(8, 5, 2))]), &none));
    assert!(!state.regresses(&HashMap::from([(1, delta(6, 6, 2))]), &HashSet::from([1])));
}

#[test]
fn the_first_version_has_the_two_static_groups() {
    let version = HummockVersion::create_init_version(&config());
    assert_eq!(version.id, FIRST_VERSION_ID);
    assert_eq!(version.max_committed_epoch, 0);
    assert_eq!(version.visible_table_safe_epoch(), 0);
    assert_eq!(version.levels.len(), 2);
    for group in [StaticCompactionGroupId::StateDefault, StaticCompactionGroupId::MaterializedView]
    {
        let levels = &version.levels[&group.id()];
        assert_eq!(levels.group_id, group.id());
        assert_eq!(levels.levels.len(), 6);
        assert!(levels.l0.sub_levels.is_empty());
        for (i, level) in levels.levels.iter().enumerate() {
            assert_eq!(level.level_idx as usize, i + 1);
            assert_eq!(level.level_type, LevelType::Nonoverlapping);
            assert!(level.table_infos.is_empty());
        }
    }
    assert_eq!(StaticCompactionGroupId::NewCompactionGroup.id(), 0);
    assert_eq!(StaticCompactionGroupId::StateDefault.id(), 2);
    assert_eq!(StaticCompactionGroupId::MaterializedView.id(), 3);
    assert!(version.state_table_info.info().is_empty());
}

#[test]
fn the_delta_after_a_version_carries_its_epochs() {
    let mut version = HummockVersion::create_init_version(&config());
    version.id = 41;
    version.max_committed_epoch = 9;
    version.safe_epoch = 4;
    assert_eq!(version.next_version_id(), 42);
    let delta = version.version_delta_after();
    assert_eq!(delta.id, 42);
    assert_eq!(delta.prev_id, 41);
    assert_eq!(delta.max_committed_epoch, 9);
    assert_eq!(delta.safe_epoch, 4);
    assert!(!delta.trivial_move);
    assert!(delta.group_deltas.is_empty());
    assert!(delta.state_table_info_delta.is_empty());
    assert!(delta.removed_table_ids.is_empty());
    // a delta that changes nothing can be applied and changes nothing but the id
    assert!(version.can_apply_version_delta(&delta));
    let before = version.clone();
    version.apply_version_delta(&delta);
    assert_eq!(version.id, 42);
    version.id = 41;
    assert_eq!(version, before);
}

#[test]
fn versions_and_deltas_are_stored_and_read_back() {
    let mut version = HummockVersion::create_init_version(&config());
    version.table_watermarks.insert(
        4,
        TableWatermarks {
            watermarks: vec![EpochWatermark { epoch: 3, watermark: b"w".to_vec() }],
            ascending: true,
        },
    );
    version.state_table_info =
        HummockVersionStateTableInfo::from_protobuf(&HashMap::from([(4, info(3, 3, 2))]));
    let stored = version.to_protobuf();
    assert_eq!(stored.id, version.id);
    assert_eq!(HummockVersion::from_persisted_protobuf(&stored), version);
    assert_eq!(HummockVersion::from_rpc_protobuf(&stored), version);

    let mut delta = version.version_delta_after();
    delta.removed_table_ids = HashSet::from([4, 5]);
    delta.state_table_info_delta.insert(6, StateTableInfoDelta {
        committed_epoch: 8,
        safe_epoch: 8,
        compaction_group_id: 3,
    });
    delta
        .group_deltas
        .insert(2, GroupDeltas { group_deltas: vec![intra_level(0, 8, vec![], vec![sst(1, vec![6])])] });
    let stored = delta.to_protobuf();
    let mut removed = stored.removed_table_ids.clone();
    removed.sort();
    assert_eq!(removed, vec![4, 5]);
    assert_eq!(HummockVersionDelta::from_persisted_protobuf(&stored), delta);
    assert_eq!(HummockVersionDelta::from_rpc_protobuf(&stored), delta);
    assert_eq!(HummockVersion::default().id, 0);
    assert_eq!(HummockVersionDelta::default().id, 0);
}

#[test]
fn a_commit_delta_makes_a_new_sub_level() {
    let mut version = HummockVersion::create_init_version(&config());
    let mut delta = version.version_delta_after();
    delta.max_committed_epoch = 5;
    delta.group_deltas.insert(
        2,
        GroupDeltas { group_deltas: vec![intra_level(0, 5, vec![], vec![sst(10, vec![1]), sst(11, vec![1])])] },
    );
    delta.state_table_info_delta.insert(1, StateTableInfoDelta {
        committed_epoch: 5,
        safe_epoch: 5,
        compaction_group_id: 2,
    });
    assert!(version.can_apply_version_delta(&delta));
    version.apply_version_delta(&delta);
    assert_eq!(version.id, 2);
    assert_eq!(version.max_committed_epoch, 5);
    let l0 = &version.levels[&2].l0;
    assert_eq!(l0.sub_levels.len(), 1);
    assert_eq!(l0.sub_levels[0].sub_level_id, 5);
    assert_eq!(l0.sub_levels[0].level_type, LevelType::Overlapping);
    assert_eq!(l0.sub_levels[0].table_infos, vec![sst(10, vec![1]), sst(11, vec![1])]);
    assert_eq!(version.state_table_info.info()[&1], info(5, 5, 2));

    // a sub-level that is not newer cannot enter with a commit
    let mut stale = version.version_delta_after();
    stale.max_committed_epoch = 6;
    stale
        .group_deltas
        .insert(2, GroupDeltas { group_deltas: vec![intra_level(0, 5, vec![], vec![sst(12, vec![1])])] });
    assert!(!version.can_apply_version_delta(&stale));
    // nor can a delta that follows another version
    let mut other = version.version_delta_after();
    other.prev_id = 7;
    assert!(!version.can_apply_version_delta(&other));
    // nor one for a group that the version does not have
    let mut unknown = version.version_delta_after();
    unknown.max_committed_epoch = 6;
    unknown
        .group_deltas
        .insert(9, GroupDeltas { group_deltas: vec![intra_level(0, 6, vec![], vec![sst(12, vec![1])])] });
    assert!(!version.can_apply_version_delta(&unknown));
}

#[test]
fn a_compaction_delta_moves_files_down() {
    let mut version = HummockVersion::create_init_version(&config());
    let mut commit = version.version_delta_after();
    commit.max_committed_epoch = 5;
    commit.group_deltas.insert(
        2,
        GroupDeltas {
            group_deltas: vec![intra_level(0, 5, vec![], vec![keyed_sst(10, b"m"), keyed_sst(11, b"c")])],
        },
    );
    version.apply_version_delta(&commit);

    // the committed epoch stays: the delta is that of a compaction
    let mut compaction = version.version_delta_after();
    compaction.group_deltas.insert(
        2,
        GroupDeltas {
            group_deltas: vec![
                intra_level(0, 0, vec![10, 11], vec![]),
                intra_level(6, 0, vec![], vec![keyed_sst(21, b"m"), keyed_sst(20, b"c"), keyed_sst(22, b"x")]),
            ],
        },
    );
    assert!(version.can_apply_version_delta(&compaction));
    version.apply_version_delta(&compaction);
    let levels = &version.levels[&2];
    // the sub-level lost its files and is gone
    assert!(levels.l0.sub_levels.is_empty());
    // the files that entered lie in the order of their first keys
    let ids: Vec<u64> = levels.levels[5].table_infos.iter().map(|s| s.sst_id).collect();
    assert_eq!(ids, vec![20, 21, 22]);

    // a file leaves the bottom level, another enters it before the others
    let mut next = version.version_delta_after();
    next.group_deltas.insert(
        2,
        GroupDeltas { group_deltas: vec![intra_level(6, 0, vec![21], vec![keyed_sst(23, b"a")])] },
    );
    version.apply_version_delta(&next);
    let ids: Vec<u64> = version.levels[&2].levels[5].table_infos.iter().map(|s| s.sst_id).collect();
    assert_eq!(ids, vec![23, 20, 22]);

    // there is no level 7, and no sub-level 99 to compact into
    let mut beyond = version.version_delta_after();
    beyond
        .group_deltas
        .insert(2, GroupDeltas { group_deltas: vec![intra_level(7, 0, vec![], vec![sst(30, vec![])])] });
    assert!(!version.can_apply_version_delta(&beyond));
    let mut missing = version.version_delta_after();
    missing
        .group_deltas
        .insert(2, GroupDeltas { group_deltas: vec![intra_level(0, 99, vec![], vec![sst(30, vec![])])] });
    assert!(!version.can_apply_version_delta(&missing));
}

#[test]
fn groups_are_made_and_destroyed() {
    let mut version = HummockVersion::create_init_version(&config());
    let mut make = version.version_delta_after();
    make.group_deltas.insert(
        7,
        GroupDeltas {
            group_deltas: vec![GroupDelta {
                delta_type: Some(DeltaType::GroupConstruct(GroupConstruct {
                    group_config: CompactionConfig { max_level: 3, ..config() },
                    parent_group_id: 2,
                    table_ids: vec![5],
                    group_id: 7,
                })),
            }],
        },
    );
    assert!(version.can_apply_version_delta(&make));
    version.apply_version_delta(&make);
    assert_eq!(version.levels[&7].levels.len(), 3);
    assert_eq!(version.levels[&7].parent_group_id, 2);
    assert_eq!(version.levels[&7].member_table_ids, vec![5]);

    let mut destroy = version.version_delta_after();
    destroy.group_deltas.insert(
        7,
        GroupDeltas { group_deltas: vec![GroupDelta { delta_type: Some(DeltaType::GroupDestroy) }] },
    );
    version.apply_version_delta(&destroy);
    assert!(!version.levels.contains_key(&7));
    assert!(!version.can_apply_version_delta(&{
        let mut again = version.version_delta_after();
        again.group_deltas.insert(
            7,
            GroupDeltas { group_deltas: vec![GroupDelta { delta_type: Some(DeltaType::GroupDestroy) }] },
        );
        again
    }));
}

#[test]
fn watermarks_and_change_logs_follow_the_delta() {
    let log = |epoch: u64, id: u64| EpochNewChangeLog {
        new_value: vec![sst(id, vec![1])],
        old_value: vec![sst(id + 100, vec![1])],
        epochs: vec![epoch],
    };
    let watermark = |epoch: u64| TableWatermarks {
        watermarks: vec![EpochWatermark { epoch, watermark: vec![epoch as u8] }],
        ascending: true,
    };
    let mut version = HummockVersion::create_init_version(&config());
    version.table_watermarks.insert(1, watermark(1));
    version.table_watermarks.insert(2, watermark(1));
    version.table_change_log.insert(1, TableChangeLog { logs: vec![log(1, 1), log(2, 2)] });
    version.table_change_log.insert(2, TableChangeLog { logs: vec![log(1, 3)] });

    let mut delta = version.version_delta_after();
    delta.removed_table_ids.insert(2);
    delta.new_table_watermarks.insert(1, watermark(3));
    delta.new_table_watermarks.insert(3, watermark(3));
    delta.change_log_delta.insert(1, ChangeLogDelta { new_log: log(3, 4), truncate_epoch: 1 });
    delta.change_log_delta.insert(3, ChangeLogDelta { new_log: log(3, 5), truncate_epoch: 0 });
    assert_eq!(
        delta.newly_added_object_ids(),
        HashSet::from([4, 104, 5, 105])
    );
    version.apply_version_delta(&delta);

    assert_eq!(version.table_watermarks.len(), 2);
    assert_eq!(
        version.table_watermarks[&1].watermarks,
        vec![
            EpochWatermark { epoch: 1, watermark: vec![1] },
            EpochWatermark { epoch: 3, watermark: vec![3] }
        ]
    );
    assert_eq!(version.table_watermarks[&3], watermark(3));
    assert_eq!(version.table_change_log.len(), 2);
    // the entry of epoch 1 does not outlive the truncation at epoch 1
    assert_eq!(version.table_change_log[&1].logs, vec![log(2, 2), log(3, 4)]);
    assert_eq!(version.table_change_log[&3].logs, vec![log(3, 5)]);
}

#[test]
fn newly_added_object_ids_come_from_inserted_files_only() {
    let mut delta = HummockVersionDelta::default();
    delta.group_deltas.insert(
        2,
        GroupDeltas {
            group_deltas: vec![
                intra_level(0, 5, vec![77], vec![sst(10, vec![1]), sst(11, vec![1])]),
                GroupDelta { delta_type: None },
                GroupDelta { delta_type: Some(DeltaType::GroupDestroy) },
            ],
        },
    );
    delta
        .group_deltas
        .insert(3, GroupDeltas { group_deltas: vec![intra_level(2, 0, vec![], vec![sst(12, vec![2])])] });
    assert_eq!(delta.newly_added_object_ids(), HashSet::from([10, 11, 12]));
    assert_eq!(HummockVersionDelta::default().newly_added_object_ids(), HashSet::new());
}

#[test]
fn versions_from_before_the_state_table_info_are_filled() {
    let mut version = HummockVersion::create_init_version(&config());
    assert!(!version.need_fill_backward_compatible_state_table_info_delta());
    version.max_committed_epoch = 9;
    version.safe_epoch = 4;
    version.levels.get_mut(&2).unwrap().member_table_ids = vec![1, 2];
    version.levels.get_mut(&3).unwrap().member_table_ids = vec![3];
    assert!(version.need_fill_backward_compatible_state_table_info_delta());
    let mut delta = version.version_delta_after();
    delta.state_table_info_delta.insert(8, StateTableInfoDelta {
        committed_epoch: 1,
        safe_epoch: 1,
        compaction_group_id: 3,
    });
    version.may_fill_backward_compatible_state_table_info_delta(&mut delta);
    assert_eq!(
        delta.state_table_info_delta,
        HashMap::from([
            (1, delta_of(9, 4, 2)),
            (2, delta_of(9, 4, 2)),
            (3, delta_of(9, 4, 3)),
            (8, delta_of(1, 1, 3)),
        ])
    );
    version.state_table_info =
        HummockVersionStateTableInfo::from_protobuf(&HashMap::from([(1, info(9, 4, 2))]));
    assert!(!version.need_fill_backward_compatible_state_table_info_delta());
}

fn delta_of(committed_epoch: u64, safe_epoch: u64, compaction_group_id: u64) -> StateTableInfoDelta {
    StateTableInfoDelta { committed_epoch, safe_epoch, compaction_group_id }
}

#[test]
fn the_encoded_size_is_estimated_from_the_parts() {
    let mut version = HummockVersion::create_init_version(&config());
    // two groups with keys of 8 bytes, no watermark
    assert_eq!(version.estimated_encode_len(100, 0), 2 * 8 + 100);
    version.table_watermarks.insert(1, TableWatermarks { watermarks: vec![], ascending: true });
    assert_eq!(version.estimated_encode_len(100, 30), 2 * 8 + 100 + 4 + 30);
    assert_eq!(version.estimated_encode_len(usize::MAX, 30), usize::MAX);
}
