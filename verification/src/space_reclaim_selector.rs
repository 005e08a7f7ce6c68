//! Selectors of compaction tasks, and the one that reclaims the space of
//! tables that left their group.

use vstd::prelude::*;
use vstd::std_specs::iter::IteratorSpec;
use std::collections::{BTreeSet, HashMap, HashSet};
use crate::compaction::{
    base_level_of, create_compaction_task, pending_view, with_pending_input,
    CompactionDeveloperConfig, CompactionGroup, CompactionInputView, CompactionTask,
    CompactionTaskView, DynamicLevelSelectorCore, LocalSelectorStatistic, TableOption, TaskType,
};
use crate::key::TableId;
use crate::level_handler::{sst_ids, HummockCompactionTaskId, LevelHandler};
use crate::levels::{Levels, LevelsView};
use crate::space_reclaim_picker::{
    input_of, is_candidate, last_level_after, lemma_picked_are_candidates, pending_sets, pick_from,
    Picked, SpaceReclaimCompactionPicker, SpaceReclaimPickerState,
};
use crate::state_table_info::CompactionGroupId;

verus! {

/// Whether a selector can work on what it is given: the group has a
/// level below level 0, every level has its handler, and the settings of
/// the group allow to size its levels.
pub open spec fn selectable(
    group: CompactionGroup,
    levels: LevelsView,
    level_handlers: Seq<LevelHandler>,
) -> bool {
    &&& 0 < levels.levels.len() < u32::MAX
    &&& level_handlers.len() > levels.levels.len()
    &&& group.compaction_config.max_bytes_for_level_multiplier > 0
    &&& group.compaction_config.max_level <= usize::MAX
}

/// No file of `input` is read by a task under way.
pub open spec fn takes_only_free_files(
    pending: Seq<Map<u64, u64>>,
    input: CompactionInputView,
) -> bool {
    forall|i: int, j: int|
        0 <= i < input.input_levels.len() && 0 <= j < input.input_levels[i].table_infos.len() ==> {
            let level = input.input_levels[i].level_idx as int;
            level < pending.len() && !pending[level].contains_key(
                (#[trigger] input.input_levels[i].table_infos[j]).sst_id,
            )
        }
}

/// Every file of `input` is read by task `task_id`.
pub open spec fn gives_files_to(
    pending: Seq<Map<u64, u64>>,
    input: CompactionInputView,
    task_id: HummockCompactionTaskId,
) -> bool {
    forall|i: int, j: int|
        0 <= i < input.input_levels.len() && 0 <= j < input.input_levels[i].table_infos.len() ==> {
            let level = input.input_levels[i].level_idx as int;
            let sst_id = (#[trigger] input.input_levels[i].table_infos[j]).sst_id;
            level < pending.len() && pending[level].contains_key(sst_id) && pending[level][sst_id]
                == task_id
        }
}

/// A way to choose the files of the next compaction task of a group.
pub trait CompactionSelector {
    /// Chooses the files of a task `task_id` for `group`, and marks them
    /// as read by that task. A selector never takes a file that a task
    /// under way reads; where it finds no file it changes no handler.
    fn pick_compaction(
        &mut self,
        task_id: HummockCompactionTaskId,
        group: &CompactionGroup,
        levels: &Levels,
        member_table_ids: &BTreeSet<TableId>,
        level_handlers: &mut Vec<LevelHandler>,
        selector_stats: &mut LocalSelectorStatistic,
        table_id_to_options: HashMap<u32, TableOption>,
        developer_config: &CompactionDeveloperConfig,
    ) -> (r: Option<CompactionTask>)
        requires
            selectable(*group, levels@, old(level_handlers)@),
        ensures
            final(level_handlers).len() == old(level_handlers).len(),
            match r {
                Some(task) => takes_only_free_files(pending_view(old(level_handlers)@), task@.input)
                    && gives_files_to(pending_view(final(level_handlers)@), task@.input, task_id),
                None => pending_view(final(level_handlers)@) == pending_view(old(level_handlers)@),
            },
            forall|l: int|
                0 <= l < old(level_handlers).len() && old(level_handlers)[l].wf() ==> (
                #[trigger] final(level_handlers)[l]).wf(),
    ;

    /// The name of the selector.
    fn name(&self) -> &'static str;

    /// The kind of task that the selector makes.
    fn task_type(&self) -> TaskType;
}

/// Chooses tasks that reclaim the space of files which hold data of
/// tables that are no longer members of the group.
#[derive(Debug)]
pub struct SpaceReclaimCompactionSelector {
    state: HashMap<CompactionGroupId, SpaceReclaimPickerState>,
}

impl View for SpaceReclaimCompactionSelector {
    type V = Map<CompactionGroupId, SpaceReclaimPickerState>;

    closed spec fn view(&self) -> Map<CompactionGroupId, SpaceReclaimPickerState> {
        self.state@
    }
}

impl Default for SpaceReclaimCompactionSelector {
    fn default() -> (r: Self)
        ensures
            r@ == Map::<CompactionGroupId, SpaceReclaimPickerState>::empty(),
    {
        Self { state: HashMap::new() }
    }
}

/// The level at which the picker of group `group_id` goes on.
pub open spec fn last_level_of(
    state: Map<CompactionGroupId, SpaceReclaimPickerState>,
    group_id: CompactionGroupId,
) -> int {
    if state.contains_key(group_id) {
        state[group_id].last_level as int
    } else {
        0
    }
}

/// The task that the selector makes of what its picker found.
pub open spec fn reclaim_task(group: CompactionGroup, levels: LevelsView, picked: Picked) -> CompactionTaskView {
    CompactionTaskView {
        input: input_of(levels, picked),
        base_level: base_level_of(group.compaction_config, levels.levels) as usize,
        compaction_config: group.compaction_config,
        compaction_task_type: TaskType::SpaceReclaim,
    }
}

/// The set of the table ids of an ordered set.
fn table_ids_of(member_table_ids: &BTreeSet<TableId>) -> (r: HashSet<TableId>)
    ensures
        r@ == member_table_ids@,
{
    broadcast use vstd::std_specs::hash::group_hash_axioms;
    broadcast use vstd::std_specs::btree::group_btree_axioms;

    let mut r: HashSet<TableId> = HashSet::new();
    let iter = member_table_ids.iter();
    let ghost all = iter.remaining();
    for table_id in it: iter
        invariant
            it.seq() == all,
            all.unref().to_set() == member_table_ids@,
            forall|t: TableId|
                r@.contains(t) <==> exists|j: int|
                    0 <= j < it.index() && *(#[trigger] all[j]) == t,
    {
        proof {
            assert(*all[it.index() as int] == *table_id);
        }
        r.insert(*table_id);
    }
    proof {
        assert forall|t: TableId| member_table_ids@.contains(t) implies r@.contains(t) by {
            assert(all.unref().contains(t));
            let j = choose|j: int| 0 <= j < all.unref().len() && all.unref()[j] == t;
            assert(*all[j] == t);
        }
        assert forall|t: TableId| r@.contains(t) implies member_table_ids@.contains(t) by {
            let j = choose|j: int| 0 <= j < all.len() && *(#[trigger] all[j]) == t;
            assert(all.unref()[j] == t);
        }
        assert(r@ =~= member_table_ids@);
    }
    r
}

/// What the picker finds lies in a level that the group has, holds only
/// files that can be chosen, and makes an input of two entries for that
/// level, the second without a file.
pub proof fn lemma_pick_from(
    levels: LevelsView,
    members: Set<TableId>,
    pending: Seq<Set<u64>>,
    last_level: int,
)
    requires
        pending.len() > levels.levels.len(),
        last_level >= 0,
    ensures
        match pick_from(levels, members, pending, last_level) {
            Some(p) => 0 <= p.level <= levels.levels.len() && (p.level == 0 ==> 0 <= p.sub_level
                < levels.l0.sub_levels.len()) && forall|j: int|
                0 <= j < p.ssts.len() ==> is_candidate(
                    #[trigger] p.ssts[j],
                    members,
                    pending[p.level],
                ),
            None => true,
        },
{
    let sub = crate::space_reclaim_picker::first_sub_level_with_pick(
        levels.l0.sub_levels,
        0,
        members,
        pending[0],
    );
    lemma_first_sub_level(levels.l0.sub_levels, 0, members, pending[0]);
    if last_level == 0 && sub < levels.l0.sub_levels.len() {
        lemma_picked_are_candidates(levels.l0.sub_levels[sub].table_infos, members, pending[0]);
    } else {
        let from = if last_level == 0 {
            1
        } else {
            last_level
        };
        lemma_first_level(levels.levels, from, members, pending);
        let level = crate::space_reclaim_picker::first_level_with_pick(
            levels.levels,
            from,
            members,
            pending,
        );
        if level <= levels.levels.len() {
            lemma_picked_are_candidates(levels.levels[level - 1].table_infos, members, pending[level]);
        }
    }
}

/// The first sub-level with a pick, from `from` on, is one of the
/// sub-levels or their number.
pub proof fn lemma_first_sub_level(
    sub_levels: Seq<crate::levels::LevelView>,
    from: int,
    members: Set<TableId>,
    pending: Set<u64>,
)
    requires
        0 <= from,
    ensures
        from <= crate::space_reclaim_picker::first_sub_level_with_pick(
            sub_levels,
            from,
            members,
            pending,
        ) || crate::space_reclaim_picker::first_sub_level_with_pick(
            sub_levels,
            from,
            members,
            pending,
        ) == sub_levels.len(),
        crate::space_reclaim_picker::first_sub_level_with_pick(sub_levels, from, members, pending)
            <= sub_levels.len(),
    decreases sub_levels.len() - from,
{
    if from < sub_levels.len() {
        lemma_first_sub_level(sub_levels, from + 1, members, pending);
    }
}

/// The first level with a pick, from `from` on, is one of the levels or
/// one more than their number.
pub proof fn lemma_first_level(
    levels: Seq<crate::levels::LevelView>,
    from: int,
    members: Set<TableId>,
    pending: Seq<Set<u64>>,
)
    requires
        1 <= from,
    ensures
        1 <= crate::space_reclaim_picker::first_level_with_pick(levels, from, members, pending)
            <= levels.len() + 1,
    decreases levels.len() + 1 - from,
{
    if from <= levels.len() {
        lemma_first_level(levels, from + 1, members, pending);
    }
}

impl SpaceReclaimCompactionSelector {
    /// What the selector does, in full: it lets its picker go on where the
    /// last call for the group left off, and makes a task of what the
    /// picker finds.
    pub open spec fn picks(
        before: Map<CompactionGroupId, SpaceReclaimPickerState>,
        after: Map<CompactionGroupId, SpaceReclaimPickerState>,
        task_id: HummockCompactionTaskId,
        group: CompactionGroup,
        levels: LevelsView,
        members: Set<TableId>,
        pending_before: Seq<LevelHandler>,
        pending_after: Seq<LevelHandler>,
        r: Option<CompactionTask>,
    ) -> bool {
        let picked = pick_from(
            levels,
            members,
            pending_sets(pending_before),
            last_level_of(before, group.group_id),
        );
        &&& after == before.insert(
            group.group_id,
            SpaceReclaimPickerState { last_level: last_level_after(picked) as usize },
        )
        &&& match picked {
            Some(p) => r is Some && r->0@ == reclaim_task(group, levels, p) && pending_view(
                pending_after,
            ) == with_pending_input(
                pending_view(pending_before),
                task_id,
                input_of(levels, p).input_levels,
            ),
            None => r is None && pending_view(pending_after) == pending_view(pending_before),
        }
    }
}

impl CompactionSelector for SpaceReclaimCompactionSelector {
    fn pick_compaction(
        &mut self,
        task_id: HummockCompactionTaskId,
        group: &CompactionGroup,
        levels: &Levels,
        member_table_ids: &BTreeSet<TableId>,
        level_handlers: &mut Vec<LevelHandler>,
        _selector_stats: &mut LocalSelectorStatistic,
        _table_id_to_options: HashMap<u32, TableOption>,
        developer_config: &CompactionDeveloperConfig,
    ) -> (r: Option<CompactionTask>)
        ensures
            SpaceReclaimCompactionSelector::picks(
                old(self)@,
                final(self)@,
                task_id,
                *group,
                levels@,
                member_table_ids@,
                old(level_handlers)@,
                final(level_handlers)@,
                r,
            ),
            *final(_selector_stats) == *old(_selector_stats),
    {
        broadcast use vstd::std_specs::hash::group_hash_axioms;

        let dynamic_level_core = DynamicLevelSelectorCore::new(
            group.compaction_config,
            *developer_config,
        );
        let mut picker = SpaceReclaimCompactionPicker::new(
            group.compaction_config.max_space_reclaim_bytes,
            table_ids_of(member_table_ids),
        );
        let ctx = dynamic_level_core.calculate_level_base_size(levels);
        let mut state = match self.state.get(&group.group_id) {
            Some(state) => *state,
            None => SpaceReclaimPickerState::default(),
        };
        let ghost pending_before = pending_view(level_handlers@);
        let ghost sets = pending_sets(level_handlers@);
        let ghost picked = pick_from(levels@, member_table_ids@, sets, state.last_level as int);
        proof {
            lemma_pick_from(levels@, member_table_ids@, sets, state.last_level as int);
        }
        let found = picker.pick_compaction(levels, level_handlers, &mut state);
        self.state.insert(group.group_id, state);
        match found {
            Some(compaction_input) => {
                proof {
                    let p = picked->0;
                    let input = input_of(levels@, p);
                    assert(input.input_levels.len() == 2);
                    assert(compaction_input@.input_levels == input.input_levels);
                    assert forall|i: int| 0 <= i < compaction_input.input_levels.len() implies (
                    #[trigger] compaction_input.input_levels[i]).level_idx
                        < level_handlers.len() by {
                        assert(compaction_input@.input_levels[i] == compaction_input.input_levels@[i]@);
                    }
                    assert(sets[p.level] == level_handlers@[p.level].pending().dom());
                    assert(pending_before[p.level] == level_handlers@[p.level].pending());
                    assert(takes_only_free_files(pending_before, input)) by {
                        assert forall|i: int, j: int|
                            0 <= i < input.input_levels.len() && 0 <= j
                                < input.input_levels[i].table_infos.len() implies {
                            let level = input.input_levels[i].level_idx as int;
                            level < pending_before.len() && !pending_before[level].contains_key(
                                (#[trigger] input.input_levels[i].table_infos[j]).sst_id,
                            )
                        } by {
                            assert(i == 0);
                            assert(is_candidate(p.ssts[j], member_table_ids@, sets[p.level]));
                        }
                    }
                    assert(input.input_levels.drop_last().drop_last() =~= Seq::empty());
                    assert(with_pending_input(
                        pending_before,
                        task_id,
                        input.input_levels.drop_last().drop_last(),
                    ) == pending_before);
                    let first = with_pending_input(
                        pending_before,
                        task_id,
                        input.input_levels.drop_last(),
                    );
                    assert(first.len() == pending_before.len());
                    let after = with_pending_input(pending_before, task_id, input.input_levels);
                    assert(gives_files_to(after, input, task_id)) by {
                        assert forall|i: int, j: int|
                            0 <= i < input.input_levels.len() && 0 <= j
                                < input.input_levels[i].table_infos.len() implies {
                            let level = input.input_levels[i].level_idx as int;
                            let sst_id = (#[trigger] input.input_levels[i].table_infos[j]).sst_id;
                            level < after.len() && after[level].contains_key(sst_id)
                                && after[level][sst_id] == task_id
                        } by {
                            assert(i == 0);
                            assert(sst_ids(p.ssts).contains(p.ssts[j].sst_id));
                        }
                    }
                }
                compaction_input.add_pending_task(task_id, level_handlers);
                Some(
                    create_compaction_task(
                        dynamic_level_core.get_config(),
                        compaction_input,
                        ctx.base_level,
                        self.task_type(),
                    ),
                )
            },
            None => None,
        }
    }

    fn name(&self) -> (r: &'static str)
        ensures
            r@ == "SpaceReclaimCompaction"@,
    {
        "SpaceReclaimCompaction"
    }

    fn task_type(&self) -> (r: TaskType)
        ensures
            r == TaskType::SpaceReclaim,
    {
        TaskType::SpaceReclaim
    }
}

} // verus!
