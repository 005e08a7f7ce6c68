//! What a compaction task is made of, and the sizing of levels that
//! selectors share.

use vstd::prelude::*;
use crate::level_handler::{
    task_ssts, with_pending, HummockCompactionTaskId, LevelHandler, RunningCompactTask,
};
use crate::levels::{
    ssts_view, CompactionConfig, HummockSstableId, LevelType, LevelView, Levels, SstableInfo,
    SstableInfoView,
};
use crate::state_table_info::CompactionGroupId;

verus! {

/// Why a compaction task was made.
#[derive(Debug, Clone, Copy, PartialEq, Eq, Structural)]
pub enum TaskType {
    TypeUnspecified,
    Dynamic,
    SpaceReclaim,
    Manual,
    SharedBuffer,
    Ttl,
    Tombstone,
    Emergency,
    VnodeWatermark,
}

/// Switches for those who develop compaction.
#[derive(Debug, Clone, Copy, PartialEq, Eq, Structural)]
pub struct CompactionDeveloperConfig {
    pub enable_trivial_move: bool,
    pub enable_check_task_level_overlap: bool,
}

/// What a selector counts while it looks for a task.
#[derive(Debug, PartialEq, Eq)]
pub struct LocalSelectorStatistic {
    /// For each pair of levels, how often no task was found.
    pub skip_picker: Vec<(usize, usize)>,
}

/// What a table asks of compaction.
#[derive(Debug, Clone, Copy, PartialEq, Eq, Structural)]
pub struct TableOption {
    pub retention_seconds: Option<u32>,
}

/// A compaction group with its settings.
#[derive(Debug, Clone, Copy, PartialEq, Eq, Structural)]
pub struct CompactionGroup {
    pub group_id: CompactionGroupId,
    pub compaction_config: CompactionConfig,
}

/// What an `InputLevel` stands for.
pub struct InputLevelView {
    pub level_idx: u32,
    pub level_type: LevelType,
    pub table_infos: Seq<SstableInfoView>,
}

/// The files of one level that a task reads.
#[derive(Debug, PartialEq, Eq)]
pub struct InputLevel {
    pub level_idx: u32,
    pub level_type: LevelType,
    pub table_infos: Vec<SstableInfo>,
}

impl View for InputLevel {
    type V = InputLevelView;

    open spec fn view(&self) -> InputLevelView {
        InputLevelView {
            level_idx: self.level_idx,
            level_type: self.level_type,
            table_infos: ssts_view(self.table_infos@),
        }
    }
}

/// The input levels of a vector, each by its view.
pub open spec fn input_levels_view(levels: Seq<InputLevel>) -> Seq<InputLevelView> {
    levels.map_values(|l: InputLevel| l@)
}

/// The sizes of the files `ssts`, added up.
pub open spec fn total_file_size(ssts: Seq<SstableInfoView>) -> int
    decreases ssts.len(),
{
    if ssts.len() == 0 {
        0
    } else {
        total_file_size(ssts.drop_last()) + ssts.last().file_size
    }
}

/// The sizes of the files `ssts`, added up; `u64::MAX` where that is more
/// than a `u64` holds.
pub fn sum_file_size(ssts: &Vec<SstableInfo>) -> (r: u64)
    ensures
        r == vstd::math::min(total_file_size(ssts_view(ssts@)), u64::MAX as int),
{
    let ghost all = ssts_view(ssts@);
    let mut sum: u64 = 0;
    let mut i: usize = 0;
    proof {
        assert(all.take(0) =~= Seq::empty());
    }
    while i < ssts.len()
        invariant
            i <= ssts.len(),
            all == ssts_view(ssts@),
            0 <= total_file_size(all.take(i as int)),
            sum == vstd::math::min(total_file_size(all.take(i as int)), u64::MAX as int),
        decreases ssts.len() - i,
    {
        proof {
            assert(all.take(i + 1).drop_last() =~= all.take(i as int));
            assert(all.take(i + 1).last() == ssts@[i as int]@);
        }
        sum = sum.saturating_add(ssts[i].file_size);
        i = i + 1;
    }
    proof {
        assert(all.take(ssts.len() as int) =~= all);
    }
    sum
}

/// What a `CompactionInput` stands for.
pub struct CompactionInputView {
    pub input_levels: Seq<InputLevelView>,
    pub target_level: usize,
    pub target_sub_level_id: u64,
    pub select_input_size: u64,
    pub target_input_size: u64,
    pub total_file_count: u64,
}

/// The files that a selector chose for one task, and where the task is
/// to put what it makes of them.
#[derive(Debug, PartialEq, Eq)]
pub struct CompactionInput {
    pub input_levels: Vec<InputLevel>,
    pub target_level: usize,
    pub target_sub_level_id: u64,
    pub select_input_size: u64,
    pub target_input_size: u64,
    pub total_file_count: u64,
}

impl View for CompactionInput {
    type V = CompactionInputView;

    open spec fn view(&self) -> CompactionInputView {
        CompactionInputView {
            input_levels: input_levels_view(self.input_levels@),
            target_level: self.target_level,
            target_sub_level_id: self.target_sub_level_id,
            select_input_size: self.select_input_size,
            target_input_size: self.target_input_size,
            total_file_count: self.total_file_count,
        }
    }
}

/// The pending files of each level of `handlers`.
pub open spec fn pending_view(handlers: Seq<LevelHandler>) -> Seq<Map<u64, u64>> {
    handlers.map_values(|h: LevelHandler| h.pending())
}

/// The pending files of each level after the files of `input_levels` were
/// given to task `task_id`, level by level.
pub open spec fn with_pending_input(
    pending: Seq<Map<u64, u64>>,
    task_id: HummockCompactionTaskId,
    input_levels: Seq<InputLevelView>,
) -> Seq<Map<u64, u64>>
    decreases input_levels.len(),
{
    if input_levels.len() == 0 {
        pending
    } else {
        let before = with_pending_input(pending, task_id, input_levels.drop_last());
        let level = input_levels.last();
        before.update(
            level.level_idx as int,
            with_pending(before[level.level_idx as int], task_id, level.table_infos),
        )
    }
}

impl CompactionInput {
    /// Marks the files of the input as read by task `task_id`, each on the
    /// handler of its level.
    pub fn add_pending_task(&self, task_id: HummockCompactionTaskId, level_handlers: &mut Vec<LevelHandler>)
        requires
            forall|i: int|
                0 <= i < self.input_levels.len() ==> (#[trigger] self.input_levels[i]).level_idx
                    < old(level_handlers).len(),
        ensures
            final(level_handlers).len() == old(level_handlers).len(),
            pending_view(final(level_handlers)@) == with_pending_input(
                pending_view(old(level_handlers)@),
                task_id,
                self@.input_levels,
            ),
            forall|l: int|
                0 <= l < old(level_handlers).len() ==> (#[trigger] final(level_handlers)[l]).level()
                    == old(level_handlers)[l].level(),
            forall|l: int|
                0 <= l < old(level_handlers).len() && old(level_handlers)[l].wf() ==> (
                #[trigger] final(level_handlers)[l]).wf(),
    {
        let ghost before = pending_view(level_handlers@);
        let ghost all = self@.input_levels;
        let n = level_handlers.len();
        let mut i: usize = 0;
        proof {
            assert(all.take(0) =~= Seq::empty());
        }
        while i < self.input_levels.len()
            invariant
                i <= self.input_levels.len(),
                all == self@.input_levels,
                n == level_handlers.len(),
                n == old(level_handlers).len(),
                forall|k: int|
                    0 <= k < self.input_levels.len() ==> (#[trigger] self.input_levels[k]).level_idx
                        < n,
                pending_view(level_handlers@) == with_pending_input(
                    before,
                    task_id,
                    all.take(i as int),
                ),
                forall|l: int|
                    0 <= l < n ==> (#[trigger] level_handlers[l]).level() == old(
                        level_handlers,
                    )[l].level(),
                forall|l: int|
                    0 <= l < n && old(level_handlers)[l].wf() ==> (#[trigger] level_handlers[l]).wf(),
            decreases self.input_levels.len() - i,
        {
            let level = &self.input_levels[i];
            let ghost held = pending_view(level_handlers@);
            let idx = level.level_idx as usize;
            proof {
                assert(all.take(i + 1).drop_last() =~= all.take(i as int));
                assert(all.take(i + 1).last() == level@);
                assert(held[idx as int] == level_handlers@[idx as int].pending());
            }
            level_handlers[idx].add_pending_task(task_id, self.target_level, &level.table_infos);
            proof {
                assert(pending_view(level_handlers@) =~= held.update(
                    idx as int,
                    level_handlers@[idx as int].pending(),
                ));
            }
            i = i + 1;
        }
        proof {
            assert(all.take(self.input_levels.len() as int) =~= all);
        }
    }
}

/// Forgets task `task_id` on every level: the files that it was given
/// are no longer pending, and can be given to another task.
pub fn release_task(level_handlers: &mut Vec<LevelHandler>, task_id: HummockCompactionTaskId)
    ensures
        final(level_handlers).len() == old(level_handlers).len(),
        forall|l: int|
            0 <= l < old(level_handlers).len() ==> {
                let before = old(level_handlers)[l];
                let after = #[trigger] final(level_handlers)[l];
                &&& after.level() == before.level()
                &&& after.pending() == before.pending().remove_keys(
                    task_ssts(before.tasks(), task_id),
                )
                &&& after.tasks() == before.tasks().filter(
                    |t: RunningCompactTask| t.task_id != task_id,
                )
                &&& before.wf() ==> after.wf() && forall|id: HummockSstableId| #[trigger]
                    after.pending().contains_key(id) ==> after.pending()[id] != task_id
            },
{
    let n = level_handlers.len();
    let mut l: usize = 0;
    while l < n
        invariant
            l <= n,
            n == level_handlers.len(),
            n == old(level_handlers).len(),
            forall|k: int| l <= k < n ==> level_handlers[k] == old(level_handlers)[k],
            forall|k: int|
                0 <= k < l ==> {
                    let before = old(level_handlers)[k];
                    let after = #[trigger] level_handlers[k];
                    &&& after.level() == before.level()
                    &&& after.pending() == before.pending().remove_keys(
                        task_ssts(before.tasks(), task_id),
                    )
                    &&& after.tasks() == before.tasks().filter(
                        |t: RunningCompactTask| t.task_id != task_id,
                    )
                    &&& before.wf() ==> after.wf() && forall|id: HummockSstableId| #[trigger]
                        after.pending().contains_key(id) ==> after.pending()[id] != task_id
                },
        decreases n - l,
    {
        level_handlers[l].remove_task(task_id);
        l = l + 1;
    }
}

/// What a `CompactionTask` stands for.
pub struct CompactionTaskView {
    pub input: CompactionInputView,
    pub base_level: usize,
    pub compaction_config: CompactionConfig,
    pub compaction_task_type: TaskType,
}

/// A compaction task as a selector hands it out.
#[derive(Debug, PartialEq, Eq)]
pub struct CompactionTask {
    pub input: CompactionInput,
    pub base_level: usize,
    pub compaction_config: CompactionConfig,
    pub compaction_task_type: TaskType,
}

impl View for CompactionTask {
    type V = CompactionTaskView;

    open spec fn view(&self) -> CompactionTaskView {
        CompactionTaskView {
            input: self.input@,
            base_level: self.base_level,
            compaction_config: self.compaction_config,
            compaction_task_type: self.compaction_task_type,
        }
    }
}

/// The task that reads `input`, with the settings of the group.
pub fn create_compaction_task(
    compaction_config: &CompactionConfig,
    input: CompactionInput,
    base_level: usize,
    compaction_task_type: TaskType,
) -> (r: CompactionTask)
    ensures
        r@ == (CompactionTaskView {
            input: input@,
            base_level,
            compaction_config: *compaction_config,
            compaction_task_type,
        }),
{
    CompactionTask { input, base_level, compaction_config: *compaction_config, compaction_task_type }
}

/// The size of a level: that of its files, added up and capped at
/// `u64::MAX`.
pub open spec fn level_size(level: LevelView) -> int {
    vstd::math::min(total_file_size(level.table_infos), u64::MAX as int)
}

/// The number of the first of `levels` that holds data; 0 where none
/// does.
pub open spec fn first_non_empty_level(levels: Seq<LevelView>) -> int
    decreases levels.len(),
{
    if levels.len() == 0 {
        0
    } else if level_size(levels[0]) > 0 && levels[0].level_idx != 0 {
        levels[0].level_idx as int
    } else {
        first_non_empty_level(levels.drop_first())
    }
}

/// The size of the largest of `levels`.
pub open spec fn max_level_size(levels: Seq<LevelView>) -> int
    decreases levels.len(),
{
    if levels.len() == 0 {
        0
    } else {
        vstd::math::max(max_level_size(levels.drop_last()), level_size(levels.last()))
    }
}

/// `size` divided `steps` times by `by`.
pub open spec fn divided(size: int, by: int, steps: int) -> int
    decreases steps,
{
    if steps <= 0 {
        size
    } else {
        divided(size / by, by, steps - 1)
    }
}

/// The level above `level` at which a size that shrinks by `by` from
/// level to level, `size` at `level`, first fits into `limit`; level 1 at
/// the least.
pub open spec fn level_that_fits(level: int, size: int, by: int, limit: int) -> int
    decreases level,
{
    if level > 1 && size > limit {
        level_that_fits(level - 1, size / by, by, limit)
    } else {
        level
    }
}

/// The base level of a group: the level into which level 0 is compacted.
/// It is the bottom level while the group holds no data; otherwise it lies
/// at or above the first level that holds data, as far up as the size of
/// the largest level asks for.
pub open spec fn base_level_of(config: CompactionConfig, levels: Seq<LevelView>) -> int {
    let first = first_non_empty_level(levels);
    let largest = max_level_size(levels);
    if largest == 0 {
        config.max_level as int
    } else {
        let by = config.max_bytes_for_level_multiplier as int;
        let base_bytes_max = config.max_bytes_for_level_base as int;
        let base_bytes_min = base_bytes_max / by;
        let size = divided(largest, by, config.max_level - first);
        if size <= base_bytes_min {
            first
        } else {
            level_that_fits(first, size, by, base_bytes_max)
        }
    }
}

/// What `calculate_level_base_size` finds.
#[derive(Debug, Clone, Copy, PartialEq, Eq, Structural)]
pub struct SelectContext {
    pub base_level: usize,
}

/// The sizing of levels that the selectors of a group share.
#[derive(Debug, Clone, Copy, PartialEq, Eq, Structural)]
pub struct DynamicLevelSelectorCore {
    config: CompactionConfig,
    developer_config: CompactionDeveloperConfig,
}

impl DynamicLevelSelectorCore {
    /// The settings that the core was made with.
    pub closed spec fn config(&self) -> CompactionConfig {
        self.config
    }

    pub fn new(config: CompactionConfig, developer_config: CompactionDeveloperConfig) -> (r: Self)
        ensures
            r.config() == config,
    {
        Self { config, developer_config }
    }

    pub fn get_config(&self) -> (r: &CompactionConfig)
        ensures
            *r == self.config(),
    {
        &self.config
    }

    /// Finds the base level of `levels`.
    pub fn calculate_level_base_size(&self, levels: &Levels) -> (ctx: SelectContext)
        requires
            self.config().max_bytes_for_level_multiplier > 0,
            self.config().max_level <= usize::MAX,
        ensures
            ctx.base_level == base_level_of(self.config(), levels@.levels),
    {
        let ghost all = levels@.levels;
        let mut first: usize = 0;
        let mut largest: u64 = 0;
        let mut i: usize = 0;
        proof {
            assert(all.take(0) =~= Seq::empty());
            assert(all.skip(0) =~= all);
        }
        while i < levels.levels.len()
            invariant
                i <= levels.levels.len(),
                all == levels@.levels,
                largest == max_level_size(all.take(i as int)),
                first == 0 ==> first_non_empty_level(all) == first_non_empty_level(
                    all.skip(i as int),
                ),
                first != 0 ==> first == first_non_empty_level(all),
            decreases levels.levels.len() - i,
        {
            let level = &levels.levels[i];
            let size = sum_file_size(&level.table_infos);
            proof {
                assert(all[i as int] == level@);
                assert(all.skip(i as int)[0] == level@);
                assert(all.skip(i as int).drop_first() =~= all.skip(i + 1));
                assert(all.take(i + 1).drop_last() =~= all.take(i as int));
                assert(all.take(i + 1).last() == level@);
            }
            if size > 0 && first == 0 {
                first = level.level_idx as usize;
            }
            if size > largest {
                largest = size;
            }
            i = i + 1;
        }
        proof {
            assert(all.take(levels.levels.len() as int) =~= all);
            assert(all.skip(all.len() as int) =~= Seq::empty());
        }
        let max_level = self.config.max_level as usize;
        if largest == 0 {
            // Use the bottommost level.
            return SelectContext { base_level: max_level };
        }
        let by = self.config.max_bytes_for_level_multiplier;
        let base_bytes_max = self.config.max_bytes_for_level_base;
        let base_bytes_min = base_bytes_max / by;
        let mut cur_level_size = largest;
        let mut level = first;
        while level < max_level
            invariant
                by > 0,
                by == self.config().max_bytes_for_level_multiplier,
                first <= level || level == first,
                level <= max_level || level == first,
                divided(largest as int, by as int, max_level - first)
                    == divided(cur_level_size as int, by as int, max_level - level),
            decreases max_level - level,
        {
            cur_level_size = cur_level_size / by;
            level = level + 1;
        }
        let mut base_level = first;
        if cur_level_size > base_bytes_min {
            while base_level > 1 && cur_level_size > base_bytes_max
                invariant
                    by > 0,
                    level_that_fits(
                        first as int,
                        divided(
                            largest as int,
                            by as int,
                            max_level - first,
                        ),
                        by as int,
                        base_bytes_max as int,
                    ) == level_that_fits(
                        base_level as int,
                        cur_level_size as int,
                        by as int,
                        base_bytes_max as int,
                    ),
                decreases base_level,
            {
                base_level = base_level - 1;
                cur_level_size = cur_level_size / by;
            }
        }
        SelectContext { base_level }
    }
}

} // verus!
