use std::collections::{BTreeSet, HashMap};

use hummock_core::compaction::{
    create_compaction_task, sum_file_size, CompactionDeveloperConfig, CompactionGroup,
    CompactionInput, DynamicLevelSelectorCore, InputLevel, LocalSelectorStatistic, TaskType,
};
use hummock_core::level_handler::LevelHandler;
use hummock_core::levels::{
    build_initial_compaction_group_levels, CompactionConfig, Level, LevelType, Levels,
    SstableInfo,
};
use hummock_core::space_reclaim_picker::{SpaceReclaimCompactionPicker, SpaceReclaimPickerState};
use hummock_core::space_reclaim_selector::{CompactionSelector, SpaceReclaimCompactionSelector};

fn config() -> CompactionConfig {
    CompactionConfig {
        max_level: 4,
        max_bytes_for_level_base: 100,
        max_bytes_for_level_multiplier: 10,
        max_space_reclaim_bytes: 1024,
        target_file_size_base: 32,
    }
}

fn group() -> CompactionGroup {
    CompactionGroup { group_id: 2, compaction_config: config() }
}

fn developer_config() -> CompactionDeveloperConfig {
    CompactionDeveloperConfig { enable_trivial_move: true, enable_check_task_level_overlap: true }
}

fn sst(id: u64, table_ids: Vec<u32>) -> SstableInfo {
    SstableInfo { object_id: id, sst_id: id, file_size: 10 * id, table_ids, ..Default::default() }
}

fn handlers() -> Vec<LevelHandler> {
    (0..5).map(LevelHandler::new).collect()
}

fn sub_level(sub_level_id: u64, table_infos: Vec<SstableInfo>) -> Level {
    Level { level_idx: 0, level_type: LevelType::Overlapping, table_infos, sub_level_id }
}

// members of the group are the tables 1 and 2
fn members() -> BTreeSet<u32> {
    BTreeSet::from([1, 2])
}

fn levels() -> Levels {
    let mut levels = build_initial_compaction_group_levels(2, &config());
    levels.l0.sub_levels = vec![
        // nothing to reclaim
        sub_level(10, vec![sst(1, vec![1]), sst(2, vec![1, 2])]),
        // file 4 holds a member and cannot go as it is; files 5 and 6 can
        sub_level(11, vec![sst(3, vec![2]), sst(4, vec![1, 9]), sst(5, vec![9]), sst(6, vec![8, 9]), sst(7, vec![1])]),
    ];
    levels.levels[1].table_infos = vec![sst(20, vec![1]), sst(21, vec![2, 9]), sst(22, vec![9])];
    levels.levels[3].table_infos = vec![sst(40, vec![9]), sst(41, vec![8]), sst(42, vec![1]), sst(43, vec![9])];
    levels
}

fn pick(
    selector: &mut SpaceReclaimCompactionSelector,
    task_id: u64,
    levels: &Levels,
    level_handlers: &mut Vec<LevelHandler>,
) -> Option<(usize, Vec<u64>)> {
    let mut stats = LocalSelectorStatistic { skip_picker: vec![] };
    let task = selector.pick_compaction(
        task_id,
        &group(),
        levels,
        &members(),
        level_handlers,
        &mut stats,
        HashMap::new(),
        &developer_config(),
    )?;
    assert_eq!(task.compaction_task_type, TaskType::SpaceReclaim);
    assert_eq!(task.compaction_config, config());
    assert_eq!(task.input.input_levels.len(), 2);
    assert!(task.input.input_levels[1].table_infos.is_empty());
    assert_eq!(task.input.input_levels[0].level_idx as usize, task.input.target_level);
    assert_eq!(task.input.total_file_count as usize, task.input.input_levels[0].table_infos.len());
    assert_eq!(task.input.select_input_size, sum_file_size(&task.input.input_levels[0].table_infos));
    Some((
        task.input.target_level,
        task.input.input_levels[0].table_infos.iter().map(|s| s.sst_id).collect(),
    ))
}

#[test]
fn the_selector_reclaims_level_by_level_and_never_picks_a_file_twice() {
    let mut selector = SpaceReclaimCompactionSelector::default();
    assert_eq!(selector.name(), "SpaceReclaimCompaction");
    assert_eq!(selector.task_type(), TaskType::SpaceReclaim);
    let levels = levels();
    let mut level_handlers = handlers();
    let mut picked: Vec<u64> = vec![];
    let mut rounds = vec![];
    let mut task_id = 100;
    while let Some((level, ids)) = pick(&mut selector, task_id, &levels, &mut level_handlers) {
        for id in &ids {
            assert!(!picked.contains(id));
            assert!(level_handlers[level].is_pending_compact(id));
            assert_eq!(level_handlers[level].pending_task_id_by_sst(id), Some(task_id));
        }
        picked.extend(ids.iter().cloned());
        rounds.push((level, ids));
        task_id += 1;
    }
    assert_eq!(
        rounds,
        vec![
            (0, vec![5, 6]),
            (2, vec![21]),
            (2, vec![22]),
            (4, vec![40, 41]),
            (4, vec![43]),
        ]
    );
    // from level 0 on again: only file 4 is left there, which cannot go as it is
    assert_eq!(pick(&mut selector, task_id, &levels, &mut level_handlers), None);
    assert!(!level_handlers[0].is_pending_compact(&4));

    // once a task is reported its files can be picked again
    level_handlers[4].remove_task(103);
    assert!(!level_handlers[4].is_pending_compact(&40));
    assert!(level_handlers[4].is_pending_compact(&43));
    assert_eq!(
        pick(&mut selector, task_id, &levels, &mut level_handlers),
        Some((4, vec![40, 41]))
    );
}

#[test]
fn the_picker_finds_nothing_where_every_table_is_a_member() {
    let mut levels = build_initial_compaction_group_levels(2, &config());
    levels.l0.sub_levels = vec![sub_level(10, vec![sst(1, vec![1]), sst(2, vec![])])];
    levels.levels[0].table_infos = vec![sst(3, vec![2, 1])];
    let mut picker = SpaceReclaimCompactionPicker::new(1024, members().into_iter().collect());
    let mut state = SpaceReclaimPickerState::default();
    assert_eq!(picker.pick_compaction(&levels, &handlers(), &mut state), None);
    assert_eq!(state.last_level, 0);
    // a state beyond the levels starts over
    state.last_level = 9;
    assert_eq!(picker.pick_compaction(&levels, &handlers(), &mut state), None);
    assert_eq!(state.last_level, 0);
}

#[test]
fn the_picker_goes_on_at_the_level_of_its_state() {
    let levels = levels();
    let mut picker = SpaceReclaimCompactionPicker::new(1024, members().into_iter().collect());
    let mut state = SpaceReclaimPickerState { last_level: 3 };
    let input = picker.pick_compaction(&levels, &handlers(), &mut state).unwrap();
    assert_eq!(state.last_level, 4);
    assert_eq!(
        input,
        CompactionInput {
            input_levels: vec![
                InputLevel {
                    level_idx: 4,
                    level_type: LevelType::Nonoverlapping,
                    table_infos: vec![sst(40, vec![9]), sst(41, vec![8])],
                },
                InputLevel { level_idx: 4, level_type: LevelType::Nonoverlapping, table_infos: vec![] },
            ],
            target_level: 4,
            target_sub_level_id: 0,
            select_input_size: 810,
            target_input_size: 0,
            total_file_count: 2,
        }
    );
    // in level 0 the input names the sub-level
    let mut state = SpaceReclaimPickerState::default();
    let input = picker.pick_compaction(&levels, &handlers(), &mut state).unwrap();
    assert_eq!(state.last_level, 0);
    assert_eq!(input.target_level, 0);
    assert_eq!(input.target_sub_level_id, 11);
    assert_eq!(input.input_levels[0].level_type, LevelType::Overlapping);
    assert_eq!(input.select_input_size, 110);
}

#[test]
fn the_base_level_follows_the_sizes_of_the_levels() {
    let core = DynamicLevelSelectorCore::new(config(), developer_config());
    assert_eq!(*core.get_config(), config());
    let mut levels = build_initial_compaction_group_levels(2, &config());
    // no data: the bottom level
    assert_eq!(core.calculate_level_base_size(&levels).base_level, 4);
    // 50 bytes in level 4: less than a tenth of the base size would be left above
    levels.levels[3].table_infos = vec![sst(5, vec![1])];
    assert_eq!(core.calculate_level_base_size(&levels).base_level, 4);
    // 5000 bytes in level 4: 500 in level 3, 50 in level 2, which fits into 100
    levels.levels[3].table_infos = vec![sst(500, vec![1])];
    assert_eq!(core.calculate_level_base_size(&levels).base_level, 2);
    // 50000 bytes: level 1 is as far up as it goes
    levels.levels[3].table_infos = vec![sst(5000, vec![1]), sst(1, vec![1])];
    assert_eq!(core.calculate_level_base_size(&levels).base_level, 1);
    // the first level with data is level 2, the largest holds 150 bytes
    levels.levels[3].table_infos = vec![sst(15, vec![1])];
    levels.levels[1].table_infos = vec![sst(1, vec![1])];
    assert_eq!(core.calculate_level_base_size(&levels).base_level, 2);
}

#[test]
fn sizes_of_files_add_up_to_a_cap() {
    assert_eq!(sum_file_size(&vec![]), 0);
    assert_eq!(sum_file_size(&vec![sst(1, vec![]), sst(2, vec![]), sst(3, vec![])]), 60);
    let huge = SstableInfo { file_size: u64::MAX - 5, ..Default::default() };
    assert_eq!(sum_file_size(&vec![sst(1, vec![]), huge]), u64::MAX);
}

#[test]
fn handlers_keep_the_files_of_tasks() {
    let mut handler = LevelHandler::new(3);
    assert_eq!(handler.get_level(), 3);
    handler.add_pending_task(1, 3, &vec![sst(10, vec![]), sst(11, vec![])]);
    handler.add_pending_task(2, 4, &vec![sst(12, vec![])]);
    assert_eq!(handler.pending_task_id_by_sst(&10), Some(1));
    assert_eq!(handler.pending_task_id_by_sst(&12), Some(2));
    assert_eq!(handler.pending_task_id_by_sst(&13), None);
    handler.remove_task(1);
    assert!(!handler.is_pending_compact(&10));
    assert!(!handler.is_pending_compact(&11));
    assert!(handler.is_pending_compact(&12));
    handler.remove_task(7);
    assert!(handler.is_pending_compact(&12));

    let input = CompactionInput {
        input_levels: vec![
            InputLevel { level_idx: 0, level_type: LevelType::Overlapping, table_infos: vec![sst(1, vec![])] },
            InputLevel { level_idx: 2, level_type: LevelType::Nonoverlapping, table_infos: vec![sst(2, vec![])] },
            InputLevel { level_idx: 0, level_type: LevelType::Overlapping, table_infos: vec![sst(3, vec![])] },
        ],
        target_level: 2,
        target_sub_level_id: 0,
        select_input_size: 0,
        target_input_size: 0,
        total_file_count: 3,
    };
    let mut level_handlers = handlers();
    input.add_pending_task(9, &mut level_handlers);
    assert_eq!(level_handlers[0].pending_task_id_by_sst(&1), Some(9));
    assert_eq!(level_handlers[0].pending_task_id_by_sst(&3), Some(9));
    assert_eq!(level_handlers[2].pending_task_id_by_sst(&2), Some(9));
    assert!(!level_handlers[1].is_pending_compact(&2));
    let task = create_compaction_task(&config(), input, 2, TaskType::Dynamic);
    assert_eq!(task.base_level, 2);
    assert_eq!(task.compaction_task_type, TaskType::Dynamic);
}
