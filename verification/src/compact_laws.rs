//! What holds of the changes that the end of a compaction task makes:
//! files that lie in the group of their tables still do so afterwards,
//! and no sub-level of level 0 becomes newer than it was.

use vstd::prelude::*;
use crate::epoch::HummockEpoch;
use crate::group_apply::{
    apply_group_delta, apply_group_deltas, apply_intra_level, group_delta_applies,
    group_deltas_apply, intra_level_applies, l0_without, l0_without_empty, level_without,
};
use crate::group_delta::{DeltaTypeView, GroupDeltaView, IntraLevelDeltaView};
use crate::key::TableId;
use crate::levels::{
    insert_position, ssts_with, ssts_with_all, ssts_without, sub_level_position,
    with_ssts_in_sub_level, HummockSstableId, LevelView, LevelsView, OverlappingLevelView,
    SstableInfoView,
};
use crate::state_table_info::{CompactionGroupId, StateTableInfo};
use crate::version::{level_in_group, sst_in_group};

verus! {

/// Whether every table of every file of `ssts` is recorded by `info` as a
/// member of group `g`.
pub open spec fn ssts_in_group(
    ssts: Seq<SstableInfoView>,
    g: CompactionGroupId,
    info: Map<TableId, StateTableInfo>,
) -> bool {
    forall|j: int| 0 <= j < ssts.len() ==> sst_in_group(#[trigger] ssts[j], g, info)
}

/// Whether the files of `group` lie in the group of their tables, and no
/// sub-level of its level 0 is newer than `epoch`.
pub open spec fn group_sound(
    group: LevelsView,
    g: CompactionGroupId,
    info: Map<TableId, StateTableInfo>,
    epoch: HummockEpoch,
) -> bool {
    &&& forall|k: int|
        0 <= k < group.levels.len() ==> level_in_group(#[trigger] group.levels[k], g, info)
    &&& forall|k: int|
        0 <= k < group.l0.sub_levels.len() ==> level_in_group(
            #[trigger] group.l0.sub_levels[k],
            g,
            info,
        ) && group.l0.sub_levels[k].sub_level_id <= epoch
}

/// A file enters a run of files at a place within it.
pub proof fn lemma_insert_position_within(ssts: Seq<SstableInfoView>, sst: SstableInfoView)
    ensures
        0 <= insert_position(ssts, sst) <= ssts.len(),
    decreases ssts.len(),
{
    if ssts.len() > 0 {
        lemma_insert_position_within(ssts.drop_first(), sst);
    }
}

/// Files of a group are files of the group after some of them left.
pub proof fn lemma_ssts_without_in_group(
    ssts: Seq<SstableInfoView>,
    removed: Set<HummockSstableId>,
    g: CompactionGroupId,
    info: Map<TableId, StateTableInfo>,
)
    requires
        ssts_in_group(ssts, g, info),
    ensures
        ssts_in_group(ssts_without(ssts, removed), g, info),
{
    let keep = |s: SstableInfoView| !removed.contains(s.sst_id);
    let kept = ssts.filter(keep);
    assert forall|j: int| 0 <= j < kept.len() implies sst_in_group(#[trigger] kept[j], g, info) by {
        ssts.lemma_filter_contains_rev(keep, kept[j]);
        let i = ssts.index_of(kept[j]);
        assert(ssts[i] == kept[j]);
    }
}

/// Files of a group are files of the group after files of the group
/// entered.
pub proof fn lemma_ssts_with_all_in_group(
    ssts: Seq<SstableInfoView>,
    entering: Seq<SstableInfoView>,
    g: CompactionGroupId,
    info: Map<TableId, StateTableInfo>,
)
    requires
        ssts_in_group(ssts, g, info),
        ssts_in_group(entering, g, info),
    ensures
        ssts_in_group(ssts_with_all(ssts, entering), g, info),
    decreases entering.len(),
{
    if entering.len() > 0 {
        let before = ssts_with_all(ssts, entering.drop_last());
        assert forall|j: int| 0 <= j < entering.drop_last().len() implies sst_in_group(
            #[trigger] entering.drop_last()[j],
            g,
            info,
        ) by {
            assert(entering.drop_last()[j] == entering[j]);
        }
        lemma_ssts_with_all_in_group(ssts, entering.drop_last(), g, info);
        lemma_insert_position_within(before, entering.last());
        let at = insert_position(before, entering.last());
        let after = ssts_with(before, entering.last());
        assert(sst_in_group(entering[entering.len() - 1], g, info));
        assert forall|j: int| 0 <= j < after.len() implies sst_in_group(
            #[trigger] after[j],
            g,
            info,
        ) by {
            if j < at {
                assert(after[j] == before[j]);
            } else if j == at {
                assert(after[j] == entering.last());
            } else {
                assert(after[j] == before[j - 1]);
            }
        }
    }
}

/// The place of a sub-level lies within the sub-levels.
pub proof fn lemma_sub_level_position_within(sub_levels: Seq<LevelView>, sub_level_id: u64)
    ensures
        0 <= sub_level_position(sub_levels, sub_level_id) <= sub_levels.len(),
    decreases sub_levels.len(),
{
    if sub_levels.len() > 0 {
        lemma_sub_level_position_within(sub_levels.drop_first(), sub_level_id);
    }
}

/// A change of table files that is no commit, and lets only files of the
/// group enter, keeps a sound group sound.
pub proof fn lemma_intra_level_keeps_group_sound(
    group: LevelsView,
    delta: IntraLevelDeltaView,
    g: CompactionGroupId,
    info: Map<TableId, StateTableInfo>,
    epoch: HummockEpoch,
)
    requires
        group_sound(group, g, info, epoch),
        intra_level_applies(group, delta, false),
        ssts_in_group(delta.inserted_table_infos, g, info),
    ensures
        group_sound(apply_intra_level(group, delta, false), g, info, epoch),
{
    let removed = delta.removed_table_ids.to_set();
    let after = apply_intra_level(group, delta, false);
    if delta.level_idx == 0 {
        let cleared = l0_without(group.l0, removed);
        assert forall|k: int| 0 <= k < cleared.sub_levels.len() implies level_in_group(
            #[trigger] cleared.sub_levels[k],
            g,
            info,
        ) && cleared.sub_levels[k].sub_level_id <= epoch by {
            assert(cleared.sub_levels[k] == level_without(group.l0.sub_levels[k], removed));
            assert(level_in_group(group.l0.sub_levels[k], g, info));
            lemma_ssts_without_in_group(group.l0.sub_levels[k].table_infos, removed, g, info);
        }
        let filled = if delta.inserted_table_infos.len() == 0 {
            cleared
        } else {
            with_ssts_in_sub_level(cleared, delta.l0_sub_level_id, delta.inserted_table_infos)
        };
        assert forall|k: int| 0 <= k < filled.sub_levels.len() implies level_in_group(
            #[trigger] filled.sub_levels[k],
            g,
            info,
        ) && filled.sub_levels[k].sub_level_id <= epoch by {
            if delta.inserted_table_infos.len() > 0 {
                let index = sub_level_position(cleared.sub_levels, delta.l0_sub_level_id);
                assert(level_in_group(cleared.sub_levels[k], g, info));
                if k == index {
                    lemma_ssts_with_all_in_group(
                        cleared.sub_levels[index].table_infos,
                        delta.inserted_table_infos,
                        g,
                        info,
                    );
                }
            }
        }
        if delta.removed_table_ids.len() > 0 {
            let keep = |l: LevelView| l.table_infos.len() > 0;
            let kept = filled.sub_levels.filter(keep);
            assert(after.l0 == l0_without_empty(filled));
            assert forall|k: int| 0 <= k < kept.len() implies level_in_group(
                #[trigger] kept[k],
                g,
                info,
            ) && kept[k].sub_level_id <= epoch by {
                filled.sub_levels.lemma_filter_contains_rev(keep, kept[k]);
                let i = filled.sub_levels.index_of(kept[k]);
                assert(filled.sub_levels[i] == kept[k]);
            }
        }
    } else {
        let idx = delta.level_idx - 1;
        let level = group.levels[idx];
        assert(level_in_group(level, g, info));
        lemma_ssts_without_in_group(level.table_infos, removed, g, info);
        lemma_ssts_with_all_in_group(
            ssts_without(level.table_infos, removed),
            delta.inserted_table_infos,
            g,
            info,
        );
        assert forall|k: int| 0 <= k < after.levels.len() implies level_in_group(
            #[trigger] after.levels[k],
            g,
            info,
        ) by {
            if k != idx {
                assert(after.levels[k] == group.levels[k]);
            }
        }
    }
}

/// Whether `delta` is a change of table files that lets only files of
/// group `g` enter.
pub open spec fn moves_files_of_group(
    delta: GroupDeltaView,
    g: CompactionGroupId,
    info: Map<TableId, StateTableInfo>,
) -> bool {
    match delta.delta_type {
        Some(DeltaTypeView::IntraLevel(d)) => ssts_in_group(d.inserted_table_infos, g, info),
        _ => false,
    }
}

/// Changes of table files that are no commit, and let only files of the
/// group enter, keep a sound group sound.
pub proof fn lemma_file_moves_keep_group_sound(
    group: LevelsView,
    deltas: Seq<GroupDeltaView>,
    g: CompactionGroupId,
    info: Map<TableId, StateTableInfo>,
    epoch: HummockEpoch,
)
    requires
        group_sound(group, g, info, epoch),
        group_deltas_apply(Some(group), g, deltas, false),
        forall|i: int| 0 <= i < deltas.len() ==> moves_files_of_group(#[trigger] deltas[i], g, info),
    ensures
        apply_group_deltas(Some(group), g, deltas, false) is Some,
        group_sound(apply_group_deltas(Some(group), g, deltas, false)->0, g, info, epoch),
    decreases deltas.len(),
{
    if deltas.len() > 0 {
        let before = deltas.drop_last();
        assert forall|i: int| 0 <= i < before.len() implies moves_files_of_group(
            #[trigger] before[i],
            g,
            info,
        ) by {
            assert(before[i] == deltas[i]);
        }
        lemma_file_moves_keep_group_sound(group, before, g, info, epoch);
        let held = apply_group_deltas(Some(group), g, before, false);
        assert(moves_files_of_group(deltas[deltas.len() - 1], g, info));
        assert(group_delta_applies(held, deltas.last(), false));
        match deltas.last().delta_type {
            Some(DeltaTypeView::IntraLevel(d)) => {
                lemma_intra_level_keeps_group_sound(held->0, d, g, info, epoch);
                assert(apply_group_delta(held, g, deltas.last(), false) == Some(
                    apply_intra_level(held->0, d, false),
                ));
            },
            _ => {},
        }
    }
}

} // verus!
