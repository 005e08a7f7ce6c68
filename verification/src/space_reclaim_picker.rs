//! The choice of table files whose space can be reclaimed: files that
//! hold data of tables which are no longer members of their group.

use vstd::prelude::*;
use std::collections::HashSet;
use crate::compaction::{
    sum_file_size, CompactionInput, CompactionInputView, InputLevel, InputLevelView,
};
use crate::key::TableId;
use crate::level_handler::LevelHandler;
use crate::levels::{
    ssts_view, HummockSstableId, Level, LevelType, LevelView, Levels, LevelsView, SstableInfo,
    SstableInfoView,
};

verus! {

/// Whether a file holds data of a table that is no member.
pub open spec fn needs_reclaim(sst: SstableInfoView, members: Set<TableId>) -> bool {
    exists|i: int| 0 <= i < sst.table_ids.len() && !members.contains(#[trigger] sst.table_ids[i])
}

/// Whether a file holds no data of a member: it can go as it is.
pub open spec fn is_trivial(sst: SstableInfoView, members: Set<TableId>) -> bool {
    forall|i: int| 0 <= i < sst.table_ids.len() ==> !members.contains(#[trigger] sst.table_ids[i])
}

/// Whether a file can be chosen: it holds data of a table that is no
/// member, and no task under way reads it.
pub open spec fn is_candidate(
    sst: SstableInfoView,
    members: Set<TableId>,
    pending: Set<HummockSstableId>,
) -> bool {
    needs_reclaim(sst, members) && !pending.contains(sst.sst_id)
}

/// Whether a file can be chosen and can go as it is.
pub open spec fn is_trivial_candidate(
    sst: SstableInfoView,
    members: Set<TableId>,
    pending: Set<HummockSstableId>,
) -> bool {
    is_candidate(sst, members, pending) && is_trivial(sst, members)
}

/// The index of the first file of `ssts`, from `from` on, that can be
/// chosen; `ssts.len()` where there is none.
pub open spec fn first_candidate(
    ssts: Seq<SstableInfoView>,
    from: int,
    members: Set<TableId>,
    pending: Set<HummockSstableId>,
) -> int
    decreases ssts.len() - from,
{
    if from < 0 || from >= ssts.len() {
        ssts.len() as int
    } else if is_candidate(ssts[from], members, pending) {
        from
    } else {
        first_candidate(ssts, from + 1, members, pending)
    }
}

/// The index of the first file of `ssts`, from `from` on, that can be
/// chosen and can go as it is; `ssts.len()` where there is none.
pub open spec fn first_trivial_candidate(
    ssts: Seq<SstableInfoView>,
    from: int,
    members: Set<TableId>,
    pending: Set<HummockSstableId>,
) -> int
    decreases ssts.len() - from,
{
    if from < 0 || from >= ssts.len() {
        ssts.len() as int
    } else if is_trivial_candidate(ssts[from], members, pending) {
        from
    } else {
        first_trivial_candidate(ssts, from + 1, members, pending)
    }
}

/// The index of the first file of `ssts`, from `from` on, that cannot be
/// chosen or cannot go as it is; `ssts.len()` where there is none.
pub open spec fn end_of_trivial_run(
    ssts: Seq<SstableInfoView>,
    from: int,
    members: Set<TableId>,
    pending: Set<HummockSstableId>,
) -> int
    decreases ssts.len() - from,
{
    if from < 0 || from >= ssts.len() {
        ssts.len() as int
    } else if !is_trivial_candidate(ssts[from], members, pending) {
        from
    } else {
        end_of_trivial_run(ssts, from + 1, members, pending)
    }
}

/// The files that are chosen from a level below level 0: the first file
/// that can be chosen, and, if it can go as it is, the files after it as
/// far as they can be chosen and can go as they are.
pub open spec fn picked_in_level(
    ssts: Seq<SstableInfoView>,
    members: Set<TableId>,
    pending: Set<HummockSstableId>,
) -> Seq<SstableInfoView> {
    let start = first_candidate(ssts, 0, members, pending);
    if start >= ssts.len() {
        Seq::empty()
    } else if is_trivial(ssts[start], members) {
        ssts.subrange(start, end_of_trivial_run(ssts, start, members, pending))
    } else {
        ssts.subrange(start, start + 1)
    }
}

/// The files that are chosen from a sub-level of level 0: the first run
/// of files that can be chosen and can go as they are.
pub open spec fn picked_in_sub_level(
    ssts: Seq<SstableInfoView>,
    members: Set<TableId>,
    pending: Set<HummockSstableId>,
) -> Seq<SstableInfoView> {
    let start = first_trivial_candidate(ssts, 0, members, pending);
    if start >= ssts.len() {
        Seq::empty()
    } else {
        ssts.subrange(start, end_of_trivial_run(ssts, start, members, pending))
    }
}

/// The run of trivial candidates that starts at `from` ends within `ssts`,
/// and holds only files that can be chosen.
pub proof fn lemma_end_of_trivial_run(
    ssts: Seq<SstableInfoView>,
    from: int,
    members: Set<TableId>,
    pending: Set<HummockSstableId>,
)
    requires
        0 <= from <= ssts.len(),
    ensures
        from <= end_of_trivial_run(ssts, from, members, pending) <= ssts.len(),
        forall|i: int|
            from <= i < end_of_trivial_run(ssts, from, members, pending) ==> is_trivial_candidate(
                #[trigger] ssts[i],
                members,
                pending,
            ),
    decreases ssts.len() - from,
{
    if from < ssts.len() && is_trivial_candidate(ssts[from], members, pending) {
        lemma_end_of_trivial_run(ssts, from + 1, members, pending);
    }
}

/// The first candidate from `from` on lies within `ssts` or at its end,
/// and is a candidate if it lies within.
pub proof fn lemma_first_candidate(
    ssts: Seq<SstableInfoView>,
    from: int,
    members: Set<TableId>,
    pending: Set<HummockSstableId>,
)
    requires
        0 <= from <= ssts.len(),
    ensures
        from <= first_candidate(ssts, from, members, pending) <= ssts.len(),
        first_candidate(ssts, from, members, pending) < ssts.len() ==> is_candidate(
            ssts[first_candidate(ssts, from, members, pending)],
            members,
            pending,
        ),
        from <= first_trivial_candidate(ssts, from, members, pending) <= ssts.len(),
        first_trivial_candidate(ssts, from, members, pending) < ssts.len()
            ==> is_trivial_candidate(
            ssts[first_trivial_candidate(ssts, from, members, pending)],
            members,
            pending,
        ),
    decreases ssts.len() - from,
{
    if from < ssts.len() {
        lemma_first_candidate(ssts, from + 1, members, pending);
    }
}

/// Every file chosen from a level or sub-level can be chosen: in
/// particular, no task under way reads it.
pub proof fn lemma_picked_are_candidates(
    ssts: Seq<SstableInfoView>,
    members: Set<TableId>,
    pending: Set<HummockSstableId>,
)
    ensures
        forall|i: int|
            0 <= i < picked_in_level(ssts, members, pending).len() ==> is_candidate(
                #[trigger] picked_in_level(ssts, members, pending)[i],
                members,
                pending,
            ),
        forall|i: int|
            0 <= i < picked_in_sub_level(ssts, members, pending).len() ==> is_candidate(
                #[trigger] picked_in_sub_level(ssts, members, pending)[i],
                members,
                pending,
            ),
{
    lemma_first_candidate(ssts, 0, members, pending);
    let start = first_candidate(ssts, 0, members, pending);
    if start < ssts.len() {
        lemma_end_of_trivial_run(ssts, start, members, pending);
    }
    let start0 = first_trivial_candidate(ssts, 0, members, pending);
    if start0 < ssts.len() {
        lemma_end_of_trivial_run(ssts, start0, members, pending);
    }
}

/// What the picker remembers of a group between calls.
#[derive(Debug, Clone, Copy, PartialEq, Eq, Structural)]
pub struct SpaceReclaimPickerState {
    /// The level at which the picker goes on: 0 for level 0.
    pub last_level: usize,
}

impl Default for SpaceReclaimPickerState {
    fn default() -> (r: Self)
        ensures
            r.last_level == 0,
    {
        SpaceReclaimPickerState { last_level: 0 }
    }
}

/// Chooses files whose space can be reclaimed.
pub struct SpaceReclaimCompactionPicker {
    // config
    pub _max_space_reclaim_bytes: u64,
    // for filter
    pub all_table_ids: HashSet<TableId>,
}

/// What the picker finds: the level, the sub-level for level 0, and the
/// files.
pub struct Picked {
    pub level: int,
    pub sub_level: int,
    pub ssts: Seq<SstableInfoView>,
}

/// The index of the first sub-level, from `from` on, from which files are
/// chosen; the number of sub-levels where there is none.
pub open spec fn first_sub_level_with_pick(
    sub_levels: Seq<LevelView>,
    from: int,
    members: Set<TableId>,
    pending: Set<HummockSstableId>,
) -> int
    decreases sub_levels.len() - from,
{
    if from < 0 || from >= sub_levels.len() {
        sub_levels.len() as int
    } else if picked_in_sub_level(sub_levels[from].table_infos, members, pending).len() > 0 {
        from
    } else {
        first_sub_level_with_pick(sub_levels, from + 1, members, pending)
    }
}

/// The number of the first level, from level `from` on, from which files
/// are chosen; one more than the number of levels where there is none.
pub open spec fn first_level_with_pick(
    levels: Seq<LevelView>,
    from: int,
    members: Set<TableId>,
    pending: Seq<Set<HummockSstableId>>,
) -> int
    decreases levels.len() + 1 - from,
{
    if from < 1 || from > levels.len() {
        (levels.len() + 1) as int
    } else if picked_in_level(levels[from - 1].table_infos, members, pending[from]).len() > 0 {
        from
    } else {
        first_level_with_pick(levels, from + 1, members, pending)
    }
}

/// What the picker finds when it goes on at `last_level`: at level 0 the
/// first sub-level from which files are chosen; then, level by level, the
/// first level from which files are chosen.
pub open spec fn pick_from(
    levels: LevelsView,
    members: Set<TableId>,
    pending: Seq<Set<HummockSstableId>>,
    last_level: int,
) -> Option<Picked> {
    let sub = first_sub_level_with_pick(levels.l0.sub_levels, 0, members, pending[0]);
    if last_level == 0 && sub < levels.l0.sub_levels.len() {
        Some(
            Picked {
                level: 0,
                sub_level: sub,
                ssts: picked_in_sub_level(levels.l0.sub_levels[sub].table_infos, members, pending[0]),
            },
        )
    } else {
        let from = if last_level == 0 {
            1
        } else {
            last_level
        };
        let level = first_level_with_pick(levels.levels, from, members, pending);
        if level <= levels.levels.len() {
            Some(
                Picked {
                    level,
                    sub_level: 0,
                    ssts: picked_in_level(levels.levels[level - 1].table_infos, members, pending[level]),
                },
            )
        } else {
            None
        }
    }
}

/// The level at which the picker goes on after it found `picked`.
pub open spec fn last_level_after(picked: Option<Picked>) -> int {
    match picked {
        Some(p) => p.level,
        None => 0,
    }
}

/// The input of a task that reads `ssts` of one level and writes to that
/// level.
pub open spec fn reclaim_input(
    level_idx: int,
    level_type: LevelType,
    target_sub_level_id: u64,
    ssts: Seq<SstableInfoView>,
) -> CompactionInputView {
    CompactionInputView {
        input_levels: seq![
            InputLevelView { level_idx: level_idx as u32, level_type, table_infos: ssts },
            InputLevelView { level_idx: level_idx as u32, level_type, table_infos: Seq::empty() },
        ],
        target_level: level_idx as usize,
        target_sub_level_id,
        select_input_size: vstd::math::min(
            crate::compaction::total_file_size(ssts),
            u64::MAX as int,
        ) as u64,
        target_input_size: 0,
        total_file_count: ssts.len() as u64,
    }
}

/// The input that the picker hands out for what it found.
pub open spec fn input_of(levels: LevelsView, picked: Picked) -> CompactionInputView {
    if picked.level == 0 {
        let sub_level = levels.l0.sub_levels[picked.sub_level];
        reclaim_input(0, sub_level.level_type, sub_level.sub_level_id, picked.ssts)
    } else {
        reclaim_input(picked.level, levels.levels[picked.level - 1].level_type, 0, picked.ssts)
    }
}

/// For each level, the files that tasks under way read.
pub open spec fn pending_sets(handlers: Seq<LevelHandler>) -> Seq<Set<HummockSstableId>> {
    handlers.map_values(|h: LevelHandler| h.pending().dom())
}

impl SpaceReclaimCompactionPicker {
    /// The tables that are members of the group.
    pub open spec fn members(&self) -> Set<TableId> {
        self.all_table_ids@
    }

    pub fn new(max_space_reclaim_bytes: u64, all_table_ids: HashSet<TableId>) -> (r: Self)
        ensures
            r.members() == all_table_ids@,
            r._max_space_reclaim_bytes == max_space_reclaim_bytes,
    {
        Self { _max_space_reclaim_bytes: max_space_reclaim_bytes, all_table_ids }
    }

    /// How many tables of `sst` are members.
    fn exist_table_count(&self, sst: &SstableInfo) -> (count: usize)
        ensures
            count <= sst.table_ids.len(),
            (count == sst.table_ids.len()) == !needs_reclaim(sst@, self.members()),
            (count == 0) == is_trivial(sst@, self.members()),
    {
        broadcast use vstd::std_specs::hash::group_hash_axioms;

        let mut count: usize = 0;
        let mut i: usize = 0;
        while i < sst.table_ids.len()
            invariant
                i <= sst.table_ids.len(),
                count <= i,
                (count == i) == forall|j: int|
                    0 <= j < i ==> self.members().contains(#[trigger] sst.table_ids@[j]),
                (count == 0) == forall|j: int|
                    0 <= j < i ==> !self.members().contains(#[trigger] sst.table_ids@[j]),
            decreases sst.table_ids.len() - i,
        {
            if self.all_table_ids.contains(&sst.table_ids[i]) {
                count = count + 1;
            }
            i = i + 1;
        }
        proof {
            let ids = sst@.table_ids;
            let members = self.members();
            assert(ids == sst.table_ids@);
            if needs_reclaim(sst@, members) {
                let k = choose|k: int| 0 <= k < ids.len() && !members.contains(#[trigger] ids[k]);
                assert(!members.contains(sst.table_ids@[k]));
            }
            if count != sst.table_ids.len() {
                let k = choose|k: int|
                    0 <= k < i && !self.members().contains(#[trigger] sst.table_ids@[k]);
                assert(!members.contains(ids[k]));
            }
            if is_trivial(sst@, members) {
                assert forall|j: int| 0 <= j < i implies !self.members().contains(
                    #[trigger] sst.table_ids@[j],
                ) by {
                    assert(!members.contains(ids[j]));
                }
            }
        }
        count
    }

    /// Whether `sst` can be chosen, and whether it can go as it is.
    fn classify(&self, sst: &SstableInfo, handler: &LevelHandler) -> (r: (bool, bool))
        ensures
            r.0 == is_candidate(sst@, self.members(), handler.pending().dom()),
            r.1 == is_trivial(sst@, self.members()),
    {
        let exist_count = self.exist_table_count(sst);
        let need_reclaim = exist_count < sst.table_ids.len();
        let is_trivial_sst = exist_count == 0;
        (need_reclaim && !handler.is_pending_compact(&sst.sst_id), is_trivial_sst)
    }

    /// The files of `ssts` from `start` on as far as they can be chosen
    /// and can go as they are.
    fn trivial_run(&self, ssts: &Vec<SstableInfo>, handler: &LevelHandler, start: usize) -> (r: Vec<
        SstableInfo,
    >)
        requires
            start <= ssts.len(),
        ensures
            ssts_view(r@) == ssts_view(ssts@).subrange(
                start as int,
                end_of_trivial_run(
                    ssts_view(ssts@),
                    start as int,
                    self.members(),
                    handler.pending().dom(),
                ),
            ),
    {
        let ghost all = ssts_view(ssts@);
        let ghost members = self.members();
        let ghost pending = handler.pending().dom();
        let mut select_input_ssts: Vec<SstableInfo> = Vec::new();
        let mut i: usize = start;
        proof {
            assert(ssts_view(select_input_ssts@) =~= all.subrange(start as int, start as int));
        }
        while i < ssts.len()
            invariant_except_break
                end_of_trivial_run(all, start as int, members, pending) == end_of_trivial_run(
                    all,
                    i as int,
                    members,
                    pending,
                ),
            invariant
                start <= i <= ssts.len(),
                all == ssts_view(ssts@),
                members == self.members(),
                pending == handler.pending().dom(),
                ssts_view(select_input_ssts@) == all.subrange(start as int, i as int),
            ensures
                i == end_of_trivial_run(all, start as int, members, pending),
            decreases ssts.len() - i,
        {
            let (candidate, trivial) = self.classify(&ssts[i], handler);
            proof {
                assert(all[i as int] == ssts@[i as int]@);
            }
            if !(candidate && trivial) {
                break;
            }
            let ghost held = ssts_view(select_input_ssts@);
            select_input_ssts.push(ssts[i].clone());
            proof {
                assert(ssts_view(select_input_ssts@) =~= held.push(all[i as int]));
                assert(held.push(all[i as int]) =~= all.subrange(start as int, i + 1));
            }
            i = i + 1;
        }
        select_input_ssts
    }

    /// The files that are chosen from a level below level 0.
    fn pick_in_level(&self, ssts: &Vec<SstableInfo>, handler: &LevelHandler) -> (r: Vec<SstableInfo>)
        ensures
            ssts_view(r@) == picked_in_level(
                ssts_view(ssts@),
                self.members(),
                handler.pending().dom(),
            ),
    {
        let ghost all = ssts_view(ssts@);
        let ghost members = self.members();
        let ghost pending = handler.pending().dom();
        let mut i: usize = 0;
        while i < ssts.len()
            invariant_except_break
                first_candidate(all, 0, members, pending) == first_candidate(
                    all,
                    i as int,
                    members,
                    pending,
                ),
            invariant
                i <= ssts.len(),
                all == ssts_view(ssts@),
                members == self.members(),
                pending == handler.pending().dom(),
            ensures
                i == first_candidate(all, 0, members, pending),
                i < ssts.len() ==> is_candidate(all[i as int], members, pending),
            decreases ssts.len() - i,
        {
            let (candidate, _trivial) = self.classify(&ssts[i], handler);
            proof {
                assert(all[i as int] == ssts@[i as int]@);
            }
            if candidate {
                break;
            }
            i = i + 1;
        }
        if i >= ssts.len() {
            let r: Vec<SstableInfo> = Vec::new();
            proof {
                assert(ssts_view(r@) =~= Seq::empty());
            }
            return r;
        }
        let (_candidate, trivial) = self.classify(&ssts[i], handler);
        proof {
            assert(all[i as int] == ssts@[i as int]@);
        }
        if trivial {
            self.trivial_run(ssts, handler, i)
        } else {
            let mut r: Vec<SstableInfo> = Vec::new();
            r.push(ssts[i].clone());
            proof {
                assert(ssts_view(r@) =~= all.subrange(i as int, i + 1));
            }
            r
        }
    }

    /// The files that are chosen from a sub-level of level 0.
    fn pick_in_sub_level(&self, ssts: &Vec<SstableInfo>, handler: &LevelHandler) -> (r: Vec<
        SstableInfo,
    >)
        ensures
            ssts_view(r@) == picked_in_sub_level(
                ssts_view(ssts@),
                self.members(),
                handler.pending().dom(),
            ),
    {
        let ghost all = ssts_view(ssts@);
        let ghost members = self.members();
        let ghost pending = handler.pending().dom();
        let mut i: usize = 0;
        while i < ssts.len()
            invariant_except_break
                first_trivial_candidate(all, 0, members, pending) == first_trivial_candidate(
                    all,
                    i as int,
                    members,
                    pending,
                ),
            invariant
                i <= ssts.len(),
                all == ssts_view(ssts@),
                members == self.members(),
                pending == handler.pending().dom(),
            ensures
                i == first_trivial_candidate(all, 0, members, pending),
            decreases ssts.len() - i,
        {
            let (candidate, trivial) = self.classify(&ssts[i], handler);
            proof {
                assert(all[i as int] == ssts@[i as int]@);
            }
            if candidate && trivial {
                break;
            }
            i = i + 1;
        }
        if i >= ssts.len() {
            let r: Vec<SstableInfo> = Vec::new();
            proof {
                assert(ssts_view(r@) =~= Seq::empty());
            }
            return r;
        }
        self.trivial_run(ssts, handler, i)
    }

    /// The input of a task that reads `ssts` of level `level_idx`.
    fn make_input(level_idx: usize, level: &Level, target_sub_level_id: u64, ssts: Vec<SstableInfo>) -> (r:
        CompactionInput)
        requires
            level_idx <= u32::MAX,
        ensures
            r@ == reclaim_input(
                level_idx as int,
                level.level_type,
                target_sub_level_id,
                ssts_view(ssts@),
            ),
    {
        let select_input_size = sum_file_size(&ssts);
        let total_file_count = ssts.len() as u64;
        let mut input_levels: Vec<InputLevel> = Vec::new();
        input_levels.push(
            InputLevel { level_idx: level_idx as u32, level_type: level.level_type, table_infos: ssts },
        );
        let none: Vec<SstableInfo> = Vec::new();
        proof {
            assert(ssts_view(none@) =~= Seq::empty());
        }
        input_levels.push(
            InputLevel { level_idx: level_idx as u32, level_type: level.level_type, table_infos: none },
        );
        let r = CompactionInput {
            select_input_size,
            total_file_count,
            input_levels,
            target_level: level_idx,
            target_sub_level_id,
            target_input_size: 0,
        };
        proof {
            assert(r@.input_levels =~= reclaim_input(
                level_idx as int,
                level.level_type,
                target_sub_level_id,
                ssts_view(ssts@),
            ).input_levels);
        }
        r
    }

    /// Chooses files whose space can be reclaimed, going on where the
    /// last call for the group left off: first in level 0, sub-level by
    /// sub-level, then level by level. Leaves in `state` the level at
    /// which it found files, and starts over at level 0 when it found
    /// none.
    pub fn pick_compaction(
        &mut self,
        levels: &Levels,
        level_handlers: &Vec<LevelHandler>,
        state: &mut SpaceReclaimPickerState,
    ) -> (r: Option<CompactionInput>)
        requires
            levels.levels.len() > 0,
            levels.levels.len() < u32::MAX,
            level_handlers.len() > levels.levels.len(),
        ensures
            final(self).members() == old(self).members(),
            match pick_from(
                levels@,
                old(self).members(),
                pending_sets(level_handlers@),
                old(state).last_level as int,
            ) {
                Some(picked) => r is Some && r->0@ == input_of(levels@, picked)
                    && final(state).last_level == picked.level,
                None => r is None && final(state).last_level == 0,
            },
    {
        let ghost members = self.members();
        let ghost pending = pending_sets(level_handlers@);
        let ghost subs = levels@.l0.sub_levels;
        let ghost lower = levels@.levels;
        if state.last_level == 0 {
            let mut k: usize = 0;
            while k < levels.l0.sub_levels.len()
                invariant
                    k <= levels.l0.sub_levels.len(),
                    subs == levels@.l0.sub_levels,
                    members == self.members(),
                    members == old(self).members(),
                    pending == pending_sets(level_handlers@),
                    level_handlers.len() > 0,
                    state.last_level == 0,
                    old(state).last_level == 0,
                    first_sub_level_with_pick(subs, 0, members, pending[0])
                        == first_sub_level_with_pick(subs, k as int, members, pending[0]),
                decreases levels.l0.sub_levels.len() - k,
            {
                let level = &levels.l0.sub_levels[k];
                proof {
                    assert(subs[k as int] == level@);
                    assert(pending[0] == level_handlers@[0].pending().dom());
                }
                let select_input_ssts = self.pick_in_sub_level(&level.table_infos, &level_handlers[0]);
                // turn to next_round
                if select_input_ssts.len() > 0 {
                    return Some(Self::make_input(0, level, level.sub_level_id, select_input_ssts));
                }
                k = k + 1;
            }
            state.last_level = 1;
        }
        let ghost from = if old(state).last_level == 0 {
            1
        } else {
            old(state).last_level as int
        };
        while state.last_level <= levels.levels.len()
            invariant
                1 <= state.last_level,
                lower == levels@.levels,
                subs == levels@.l0.sub_levels,
                members == self.members(),
                members == old(self).members(),
                pending == pending_sets(level_handlers@),
                levels.levels.len() < u32::MAX,
                level_handlers.len() > levels.levels.len(),
                from == if old(state).last_level == 0 {
                    1
                } else {
                    old(state).last_level as int
                },
                old(state).last_level == 0 ==> first_sub_level_with_pick(
                    subs,
                    0,
                    members,
                    pending[0],
                ) >= subs.len(),
                first_level_with_pick(lower, from, members, pending) == first_level_with_pick(
                    lower,
                    state.last_level as int,
                    members,
                    pending,
                ),
            decreases levels.levels.len() + 1 - state.last_level,
        {
            let level = &levels.levels[state.last_level - 1];
            proof {
                assert(lower[state.last_level - 1] == level@);
                assert(pending[state.last_level as int] == level_handlers@[state.last_level as int].pending().dom());
            }
            let select_input_ssts = self.pick_in_level(
                &level.table_infos,
                &level_handlers[state.last_level],
            );
            // turn to next_round
            if select_input_ssts.len() > 0 {
                return Some(Self::make_input(state.last_level, level, 0, select_input_ssts));
            }
            state.last_level = state.last_level + 1;
        }
        state.last_level = 0;
        None
    }
}

} // verus!
