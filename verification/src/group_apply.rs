//! How the changes of a version delta apply to the levels of one
//! compaction group.

use vstd::prelude::*;
use std::collections::HashSet;
use crate::group_delta::{
    DeltaType, DeltaTypeView, GroupDelta, GroupDeltaView, GroupDeltas, IntraLevelDelta,
    IntraLevelDeltaView,
};
use crate::levels::{
    add_ssts_to_sub_level, build_initial_compaction_group_levels, can_insert_new_sub_level,
    clone_ssts, clone_u32s, has_sub_level, initial_group_levels, insert_new_sub_level,
    level_delete_ssts, level_insert_ssts, levels_view, ssts_with_all, ssts_without,
    with_new_sub_level, with_ssts_in_sub_level, HummockSstableId, Level, LevelType, LevelView,
    Levels, LevelsView, OverlappingLevel, OverlappingLevelView,
};
use crate::state_table_info::CompactionGroupId;

verus! {

/// `level` without the files whose ids are in `removed`.
pub open spec fn level_without(level: LevelView, removed: Set<HummockSstableId>) -> LevelView {
    LevelView { table_infos: ssts_without(level.table_infos, removed), ..level }
}

/// `l0` without the files whose ids are in `removed`.
pub open spec fn l0_without(
    l0: OverlappingLevelView,
    removed: Set<HummockSstableId>,
) -> OverlappingLevelView {
    OverlappingLevelView {
        sub_levels: l0.sub_levels.map_values(|l: LevelView| level_without(l, removed)),
    }
}

/// `l0` without the sub-levels that hold no file.
pub open spec fn l0_without_empty(l0: OverlappingLevelView) -> OverlappingLevelView {
    OverlappingLevelView { sub_levels: l0.sub_levels.filter(|l: LevelView| l.table_infos.len() > 0) }
}

/// Whether a change of table files can be made to `levels`. Files can
/// enter an existing level below level 0; into level 0 they can enter,
/// with a commit, as a sub-level that is newer than all, and otherwise
/// into the sub-level that the change names.
pub open spec fn intra_level_applies(
    levels: LevelsView,
    delta: IntraLevelDeltaView,
    is_commit: bool,
) -> bool {
    if delta.level_idx == 0 {
        let l0 = l0_without(levels.l0, delta.removed_table_ids.to_set());
        delta.inserted_table_infos.len() == 0 || if is_commit {
            can_insert_new_sub_level(l0, delta.l0_sub_level_id)
        } else {
            has_sub_level(l0, delta.l0_sub_level_id)
        }
    } else {
        delta.level_idx <= levels.levels.len()
    }
}

/// `levels` after a change of table files: the files that leave are
/// gone from the level, the files that enter are in it, and a sub-level
/// of level 0 that lost its last file is gone.
pub open spec fn apply_intra_level(
    levels: LevelsView,
    delta: IntraLevelDeltaView,
    is_commit: bool,
) -> LevelsView {
    let removed = delta.removed_table_ids.to_set();
    if delta.level_idx == 0 {
        let cleared = l0_without(levels.l0, removed);
        let filled = if delta.inserted_table_infos.len() == 0 {
            cleared
        } else if is_commit {
            with_new_sub_level(
                cleared,
                delta.l0_sub_level_id,
                LevelType::Overlapping,
                delta.inserted_table_infos,
            )
        } else {
            with_ssts_in_sub_level(cleared, delta.l0_sub_level_id, delta.inserted_table_infos)
        };
        let l0 = if delta.removed_table_ids.len() > 0 {
            l0_without_empty(filled)
        } else {
            filled
        };
        LevelsView { l0, ..levels }
    } else {
        let idx = delta.level_idx - 1;
        let level = levels.levels[idx];
        LevelsView {
            levels: levels.levels.update(
                idx,
                LevelView {
                    table_infos: ssts_with_all(
                        ssts_without(level.table_infos, removed),
                        delta.inserted_table_infos,
                    ),
                    ..level
                },
            ),
            ..levels
        }
    }
}

/// Whether one change can be made to a group that is there, or is not.
pub open spec fn group_delta_applies(
    group: Option<LevelsView>,
    delta: GroupDeltaView,
    is_commit: bool,
) -> bool {
    match delta.delta_type {
        None => true,
        Some(DeltaTypeView::IntraLevel(d)) => group is Some && intra_level_applies(
            group->0,
            d,
            is_commit,
        ),
        Some(DeltaTypeView::GroupConstruct(d)) => d.group_config.max_level < u32::MAX,
        Some(DeltaTypeView::GroupDestroy) => group is Some,
        Some(DeltaTypeView::GroupMetaChange(_)) => group is Some,
        Some(DeltaTypeView::GroupTableChange(_)) => group is Some,
    }
}

/// Group `group_id` after one change: made anew without a file, gone, or
/// with its files changed. A change to the tables that a group lists
/// leaves the files as they are.
pub open spec fn apply_group_delta(
    group: Option<LevelsView>,
    group_id: CompactionGroupId,
    delta: GroupDeltaView,
    is_commit: bool,
) -> Option<LevelsView> {
    match delta.delta_type {
        None => group,
        Some(DeltaTypeView::IntraLevel(d)) => Some(apply_intra_level(group->0, d, is_commit)),
        Some(DeltaTypeView::GroupConstruct(d)) => Some(
            LevelsView {
                parent_group_id: d.parent_group_id,
                member_table_ids: d.table_ids,
                ..initial_group_levels(group_id, d.group_config)
            },
        ),
        Some(DeltaTypeView::GroupDestroy) => None,
        Some(DeltaTypeView::GroupMetaChange(_)) => group,
        Some(DeltaTypeView::GroupTableChange(_)) => group,
    }
}

/// Group `group_id` after the changes `deltas`, made in their order.
pub open spec fn apply_group_deltas(
    group: Option<LevelsView>,
    group_id: CompactionGroupId,
    deltas: Seq<GroupDeltaView>,
    is_commit: bool,
) -> Option<LevelsView>
    decreases deltas.len(),
{
    if deltas.len() == 0 {
        group
    } else {
        apply_group_delta(
            apply_group_deltas(group, group_id, deltas.drop_last(), is_commit),
            group_id,
            deltas.last(),
            is_commit,
        )
    }
}

/// Whether the changes `deltas` can be made in their order.
pub open spec fn group_deltas_apply(
    group: Option<LevelsView>,
    group_id: CompactionGroupId,
    deltas: Seq<GroupDeltaView>,
    is_commit: bool,
) -> bool
    decreases deltas.len(),
{
    deltas.len() == 0 || (group_deltas_apply(group, group_id, deltas.drop_last(), is_commit)
        && group_delta_applies(
        apply_group_deltas(group, group_id, deltas.drop_last(), is_commit),
        deltas.last(),
        is_commit,
    ))
}

/// The levels of a group that may not be there, by their view.
pub open spec fn group_view(group: Option<Levels>) -> Option<LevelsView> {
    match group {
        Some(levels) => Some(levels@),
        None => None,
    }
}

/// The set of the ids of a vector.
fn sst_id_set_of(ids: &Vec<HummockSstableId>) -> (r: HashSet<HummockSstableId>)
    ensures
        r@ == ids@.to_set(),
{
    broadcast use vstd::std_specs::hash::group_hash_axioms;

    let mut r: HashSet<HummockSstableId> = HashSet::new();
    let mut i: usize = 0;
    proof {
        assert(ids@.take(0).to_set() =~= Set::empty());
    }
    while i < ids.len()
        invariant
            i <= ids.len(),
            r@ == ids@.take(i as int).to_set(),
        decreases ids.len() - i,
    {
        r.insert(ids[i]);
        proof {
            let a = ids@.take(i as int);
            let b = ids@.take(i + 1);
            assert forall|t: HummockSstableId|
                b.to_set().contains(t) == a.to_set().insert(ids@[i as int]).contains(t) by {
                if b.contains(t) {
                    let k = choose|k: int| 0 <= k < b.len() && b[k] == t;
                    if k < i {
                        assert(a[k] == t);
                    }
                }
                if a.contains(t) {
                    let k = choose|k: int| 0 <= k < a.len() && a[k] == t;
                    assert(b[k] == t);
                }
                if t == ids@[i as int] {
                    assert(b[i as int] == t);
                }
            }
            assert(b.to_set() =~= a.to_set().insert(ids@[i as int]));
        }
        i = i + 1;
    }
    proof {
        assert(ids@.take(ids.len() as int) =~= ids@);
    }
    r
}

/// Takes the files whose ids are in `removed` out of every sub-level.
fn l0_delete_ssts(l0: &mut OverlappingLevel, removed: &HashSet<HummockSstableId>)
    ensures
        final(l0)@ == l0_without(old(l0)@, removed@),
{
    let ghost before = l0@.sub_levels;
    let n = l0.sub_levels.len();
    let mut i: usize = 0;
    while i < n
        invariant
            i <= n,
            n == l0.sub_levels.len(),
            before.len() == n,
            forall|j: int|
                0 <= j < i ==> (#[trigger] l0.sub_levels@[j])@ == level_without(
                    before[j],
                    removed@,
                ),
            forall|j: int| i <= j < n ==> (#[trigger] l0.sub_levels@[j])@ == before[j],
        decreases n - i,
    {
        level_delete_ssts(&mut l0.sub_levels[i], removed);
        i = i + 1;
    }
    proof {
        assert(l0@.sub_levels =~= l0_without(old(l0)@, removed@).sub_levels);
    }
}

/// Drops the sub-levels that hold no file.
fn l0_drop_empty(l0: &mut OverlappingLevel)
    ensures
        final(l0)@ == l0_without_empty(old(l0)@),
{
    let ghost all = l0@.sub_levels;
    let ghost keep = |l: LevelView| l.table_infos.len() > 0;
    let mut sub_levels: Vec<Level> = Vec::new();
    std::mem::swap(&mut l0.sub_levels, &mut sub_levels);
    let ghost given = sub_levels@;
    let mut kept: Vec<Level> = Vec::new();
    proof {
        reveal(Seq::filter);
        assert(all.take(0) =~= Seq::empty());
        assert(levels_view(kept@) =~= all.take(0).filter(keep));
    }
    for level in it: sub_levels
        invariant
            it.seq() == given,
            all == levels_view(given),
            keep == (|l: LevelView| l.table_infos.len() > 0),
            levels_view(kept@) == all.take(it.index() as int).filter(keep),
    {
        let ghost before = levels_view(kept@);
        proof {
            reveal(Seq::filter);
            let k = it.index() as int;
            assert(all.take(k + 1).drop_last() =~= all.take(k));
            assert(all.take(k + 1).last() == level@);
        }
        if level.table_infos.len() > 0 {
            kept.push(level);
            proof {
                assert(levels_view(kept@) =~= before.push(level@));
            }
        }
    }
    proof {
        assert(all.take(all.len() as int) =~= all);
    }
    l0.sub_levels = kept;
}

/// Makes a change of table files to `levels`. Says whether the change
/// could be made; where it could not, `levels` is left in an unspecified
/// state.
pub fn apply_intra_level_delta(levels: &mut Levels, delta: &IntraLevelDelta, is_commit: bool) -> (done:
    bool)
    ensures
        done == intra_level_applies(old(levels)@, delta@, is_commit),
        done ==> final(levels)@ == apply_intra_level(old(levels)@, delta@, is_commit),
{
    let removed = sst_id_set_of(&delta.removed_table_ids);
    let inserted = clone_ssts(&delta.inserted_table_infos);
    if delta.level_idx == 0 {
        if delta.removed_table_ids.len() > 0 {
            l0_delete_ssts(&mut levels.l0, &removed);
        } else {
            proof {
                assert(removed@ =~= Set::<HummockSstableId>::empty());
                lemma_l0_without_nothing(levels.l0@, removed@);
            }
        }
        if inserted.len() > 0 {
            let done = if is_commit {
                insert_new_sub_level(
                    &mut levels.l0,
                    delta.l0_sub_level_id,
                    LevelType::Overlapping,
                    inserted,
                )
            } else {
                add_ssts_to_sub_level(&mut levels.l0, delta.l0_sub_level_id, inserted)
            };
            if !done {
                return false;
            }
        }
        if delta.removed_table_ids.len() > 0 {
            l0_drop_empty(&mut levels.l0);
        }
        true
    } else {
        let level_idx = delta.level_idx as usize;
        if level_idx > levels.levels.len() {
            return false;
        }
        let idx = level_idx - 1;
        let ghost before = levels@.levels;
        proof {
            assert(before[idx as int] == levels.levels@[idx as int]@);
        }
        level_delete_ssts(&mut levels.levels[idx], &removed);
        level_insert_ssts(&mut levels.levels[idx], inserted);
        proof {
            assert(levels@.levels =~= before.update(idx as int, levels.levels@[idx as int]@));
        }
        true
    }
}

/// Taking no file out of level 0 leaves it as it is.
pub proof fn lemma_l0_without_nothing(l0: OverlappingLevelView, removed: Set<HummockSstableId>)
    requires
        removed == Set::<HummockSstableId>::empty(),
    ensures
        l0_without(l0, removed) == l0,
{
    assert forall|i: int| 0 <= i < l0.sub_levels.len() implies level_without(
        #[trigger] l0.sub_levels[i],
        removed,
    ) == l0.sub_levels[i] by {
        lemma_ssts_without_nothing(l0.sub_levels[i].table_infos, removed);
    }
    assert(l0_without(l0, removed).sub_levels =~= l0.sub_levels);
}

/// Taking no file out of a run of files leaves it as it is.
pub proof fn lemma_ssts_without_nothing(
    ssts: Seq<crate::levels::SstableInfoView>,
    removed: Set<HummockSstableId>,
)
    requires
        removed == Set::<HummockSstableId>::empty(),
    ensures
        ssts_without(ssts, removed) == ssts,
    decreases ssts.len(),
{
    reveal(Seq::filter);
    if ssts.len() > 0 {
        lemma_ssts_without_nothing(ssts.drop_last(), removed);
        assert(ssts.drop_last().push(ssts.last()) =~= ssts);
    }
}

/// Makes one change to a group that is there, or is not. Says whether
/// the change could be made; where it could not, `group` is left in an
/// unspecified state.
pub fn apply_one_group_delta(
    group: &mut Option<Levels>,
    group_id: CompactionGroupId,
    delta: &GroupDelta,
    is_commit: bool,
) -> (done: bool)
    ensures
        done == group_delta_applies(group_view(*old(group)), delta@, is_commit),
        done ==> group_view(*final(group)) == apply_group_delta(
            group_view(*old(group)),
            group_id,
            delta@,
            is_commit,
        ),
{
    match &delta.delta_type {
        None => true,
        Some(DeltaType::IntraLevel(d)) => {
            match group {
                Some(levels) => apply_intra_level_delta(levels, d, is_commit),
                None => false,
            }
        },
        Some(DeltaType::GroupConstruct(d)) => {
            if d.group_config.max_level >= 0xffff_ffff {
                return false;
            }
            let mut levels = build_initial_compaction_group_levels(group_id, &d.group_config);
            levels.parent_group_id = d.parent_group_id;
            levels.member_table_ids = clone_u32s(&d.table_ids);
            *group = Some(levels);
            true
        },
        Some(DeltaType::GroupDestroy) => {
            let was = group.is_some();
            *group = None;
            was
        },
        Some(DeltaType::GroupMetaChange(_)) => group.is_some(),
        Some(DeltaType::GroupTableChange(_)) => group.is_some(),
    }
}

/// Makes the changes `deltas` to a group, in their order. Says whether
/// they could be made; where they could not, `group` is left in an
/// unspecified state.
pub fn apply_group_deltas_in_order(
    group: &mut Option<Levels>,
    group_id: CompactionGroupId,
    deltas: &GroupDeltas,
    is_commit: bool,
) -> (done: bool)
    ensures
        done == group_deltas_apply(group_view(*old(group)), group_id, deltas@, is_commit),
        done ==> group_view(*final(group)) == apply_group_deltas(
            group_view(*old(group)),
            group_id,
            deltas@,
            is_commit,
        ),
{
    let ghost start = group_view(*group);
    let ghost all = deltas@;
    let mut i: usize = 0;
    proof {
        assert(all.take(0) =~= Seq::empty());
    }
    while i < deltas.group_deltas.len()
        invariant
            i <= deltas.group_deltas.len(),
            all == deltas@,
            start == group_view(*old(group)),
            group_deltas_apply(start, group_id, all.take(i as int), is_commit),
            group_view(*group) == apply_group_deltas(start, group_id, all.take(i as int), is_commit),
        decreases deltas.group_deltas.len() - i,
    {
        proof {
            assert(all.take(i + 1).drop_last() =~= all.take(i as int));
            assert(all.take(i + 1).last() == deltas.group_deltas@[i as int]@);
        }
        let ghost reached = group_view(*group);
        let done = apply_one_group_delta(group, group_id, &deltas.group_deltas[i], is_commit);
        if !done {
            proof {
                if group_deltas_apply(start, group_id, all, is_commit) {
                    lemma_group_deltas_apply_prefix(start, group_id, all, is_commit, i + 1);
                    let pre = all.take(i + 1);
                    assert(pre.len() > 0);
                    assert(apply_group_deltas(start, group_id, pre.drop_last(), is_commit)
                        == reached);
                    assert(group_delta_applies(reached, pre.last(), is_commit));
                }
            }
            return false;
        }
        i = i + 1;
    }
    proof {
        assert(all.take(all.len() as int) =~= all);
    }
    true
}

/// Changes that can be made in their order can be made up to any point.
pub proof fn lemma_group_deltas_apply_prefix(
    group: Option<LevelsView>,
    group_id: CompactionGroupId,
    deltas: Seq<GroupDeltaView>,
    is_commit: bool,
    n: int,
)
    requires
        0 <= n <= deltas.len(),
        group_deltas_apply(group, group_id, deltas, is_commit),
    ensures
        group_deltas_apply(group, group_id, deltas.take(n), is_commit),
    decreases deltas.len(),
{
    if n == deltas.len() {
        assert(deltas.take(n) =~= deltas);
    } else {
        lemma_group_deltas_apply_prefix(group, group_id, deltas.drop_last(), is_commit, n);
        assert(deltas.drop_last().take(n) =~= deltas.take(n));
    }
}

} // verus!
