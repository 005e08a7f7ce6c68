//! What holds of every commit: its delta can be applied, and the version
//! that it makes is one that commits can go on from, in which every file
//! lies in the group of its tables.

use vstd::prelude::*;
use crate::commit_epoch::{
    commit_delta, commit_ssts, new_table_groups, recorded_new_table, table_groups,
    CommitEpochInfoView, NewTableFragmentInfoView,
};
use crate::epoch::HummockEpoch;
use crate::group_apply::{apply_group_deltas, group_deltas_apply, lemma_l0_without_nothing};
use crate::key::TableId;
use crate::levels::{
    can_insert_new_sub_level, with_new_sub_level, LevelType, LevelsView, SstableInfoView,
};
use crate::regroup_laws::{lemma_regrouped_belong, pair_belongs};
use crate::sst_grouping::{commit_group_delta, pair_in_group, ssts_for, GroupedSst};
use crate::state_table_info::{delta_regresses, CompactionGroupId, StateTableInfo};
use crate::version::{
    group_of, level_in_group, sst_in_group, HummockVersionDeltaView, HummockVersionView,
};

verus! {

/// The levels of a group after the files `ssts` entered level 0 with a
/// commit at `epoch`.
pub open spec fn with_committed_ssts(
    group: LevelsView,
    epoch: HummockEpoch,
    ssts: Seq<SstableInfoView>,
) -> LevelsView {
    LevelsView {
        l0: if ssts.len() == 0 {
            group.l0
        } else {
            with_new_sub_level(group.l0, epoch, LevelType::Overlapping, ssts)
        },
        ..group
    }
}

/// The one change of a commit can be made to a group whose sub-levels are
/// older than the epoch, and makes the files enter level 0.
pub proof fn lemma_commit_group_delta(
    group: LevelsView,
    g: CompactionGroupId,
    epoch: HummockEpoch,
    ssts: Seq<SstableInfoView>,
)
    requires
        ssts.len() == 0 || can_insert_new_sub_level(group.l0, epoch),
    ensures
        group_deltas_apply(Some(group), g, commit_group_delta(epoch, ssts), true),
        apply_group_deltas(Some(group), g, commit_group_delta(epoch, ssts), true) == Some(
            with_committed_ssts(group, epoch, ssts),
        ),
{
    let deltas = commit_group_delta(epoch, ssts);
    let none = Seq::<u64>::empty();
    assert(deltas.drop_last() =~= Seq::empty());
    assert(deltas.last() == deltas[0]);
    assert(none.to_set() =~= Set::<u64>::empty());
    lemma_l0_without_nothing(group.l0, none.to_set());
    reveal_with_fuel(group_deltas_apply, 2);
    reveal_with_fuel(apply_group_deltas, 2);
}

/// The tables that a commit registers are not recorded yet, if none of
/// them is found recorded.
pub proof fn lemma_new_tables_are_new(
    info: Map<TableId, StateTableInfo>,
    new_tables: Option<NewTableFragmentInfoView>,
)
    requires
        recorded_new_table(info, new_tables) is None,
    ensures
        forall|t: TableId| #[trigger]
            new_table_groups(new_tables).contains_key(t) ==> !info.contains_key(t),
{
    match new_tables {
        None => {},
        Some(f) => {
            lemma_first_recorded(info, f.internal_table_ids);
        },
    }
}

/// Where no table of `table_ids` is found recorded, none is recorded.
pub proof fn lemma_first_recorded(info: Map<TableId, StateTableInfo>, table_ids: Seq<TableId>)
    ensures
        0 <= crate::commit_epoch::first_recorded(info, table_ids) <= table_ids.len(),
        crate::commit_epoch::first_recorded(info, table_ids) == table_ids.len() ==> forall|
            t: TableId,
        |
            table_ids.contains(t) ==> !info.contains_key(t),
    decreases table_ids.len(),
{
    if table_ids.len() > 0 && !info.contains_key(table_ids[0]) {
        let rest = table_ids.drop_first();
        lemma_first_recorded(info, rest);
        if crate::commit_epoch::first_recorded(info, table_ids) == table_ids.len() {
            assert forall|t: TableId| table_ids.contains(t) implies !info.contains_key(t) by {
                let i = choose|i: int| 0 <= i < table_ids.len() && table_ids[i] == t;
                if i > 0 {
                    assert(rest[i - 1] == t);
                    assert(rest.contains(t));
                }
            }
        }
    }
}

/// A file among those for group `g` is one of the files, with the group
/// `g`.
pub proof fn lemma_ssts_for(pairs: Seq<GroupedSst>, g: CompactionGroupId, j: int)
    requires
        0 <= j < ssts_for(pairs, g).len(),
    ensures
        exists|i: int| 0 <= i < pairs.len() && #[trigger] pairs[i] == (g, ssts_for(pairs, g)[j]),
{
    let kept = pairs.filter(pair_in_group(g));
    pairs.lemma_filter_pred(pair_in_group(g), j);
    pairs.lemma_filter_contains_rev(pair_in_group(g), kept[j]);
    let i = pairs.index_of(kept[j]);
    assert(pairs[i] == kept[j]);
    assert(kept[j].0 == g);
}

/// The delta of a commit can be applied to the version that the commit
/// goes on from; and the version that it makes is again one that commits
/// can go on from, in which every table is committed at the epoch of the
/// commit. Where every file of the old version lies in the group of its
/// tables, so does every file of the new one.
pub proof fn lemma_commit_delta_applies(
    v: HummockVersionView,
    info: CommitEpochInfoView,
    new_sst_id: u64,
)
    requires
        v.healthy(),
        info.max_committed_epoch > v.max_committed_epoch,
        recorded_new_table(v.state_table_info, info.new_table_fragment_info) is None,
    ensures
        v.can_apply(commit_delta(v, info, new_sst_id)),
        v.applied(commit_delta(v, info, new_sst_id)).healthy(),
        v.ssts_in_member_groups() ==> v.applied(
            commit_delta(v, info, new_sst_id),
        ).ssts_in_member_groups(),
{
    let epoch = info.max_committed_epoch;
    let delta = commit_delta(v, info, new_sst_id);
    let new = new_table_groups(info.new_table_fragment_info);
    let mapping = table_groups(v.state_table_info, new);
    let pairs = commit_ssts(v, info, new_sst_id);
    let w = v.applied(delta);
    lemma_new_tables_are_new(v.state_table_info, info.new_table_fragment_info);
    assert forall|t: TableId| #[trigger] mapping.contains_key(t) implies v.levels.dom().contains(
        mapping[t],
    ) by {
        if new.contains_key(t) {
        } else {
            assert(v.state_table_info.contains_key(t));
        }
    }
    lemma_regrouped_belong(info.sstables, mapping, v.levels.dom(), new_sst_id as int);
    assert(v.is_commit(delta));
    // every group that the delta names is there, and takes the files
    assert forall|g: CompactionGroupId| #[trigger]
        delta.group_deltas.contains_key(g) implies v.levels.contains_key(g) && group_deltas_apply(
        group_of(v.levels, g),
        g,
        delta.group_deltas[g],
        true,
    ) && apply_group_deltas(group_of(v.levels, g), g, delta.group_deltas[g], true) == Some(
        with_committed_ssts(v.levels[g], epoch, ssts_for(pairs, g)),
    ) by {
        let i = choose|i: int| 0 <= i < pairs.len() && (#[trigger] pairs[i]).0 == g;
        assert(pair_belongs(pairs[i], mapping, v.levels.dom()));
        let subs = v.levels[g].l0.sub_levels;
        if subs.len() > 0 {
            assert(subs.last() == subs[subs.len() - 1]);
            assert(subs[subs.len() - 1].sub_level_id <= v.max_committed_epoch);
        }
        lemma_commit_group_delta(v.levels[g], g, epoch, ssts_for(pairs, g));
    }
    assert(!delta_regresses(
        v.state_table_info,
        delta.state_table_info_delta,
        delta.removed_table_ids,
    ));
    assert(v.can_apply(delta));
    // the new version
    assert(w.tables_in_groups()) by {
        assert forall|t: TableId| #[trigger]
            w.state_table_info.contains_key(t) implies w.levels.contains_key(
            w.state_table_info[t].compaction_group_id,
        ) by {
            let g = w.state_table_info[t].compaction_group_id;
            assert(mapping.contains_key(t) && mapping[t] == g);
            assert(v.levels.contains_key(g));
        }
    }
    assert(w.sub_levels_committed()) by {
        assert forall|g: CompactionGroupId, k: int|
            w.levels.contains_key(g) && 0 <= k < w.levels[g].l0.sub_levels.len() implies (
        #[trigger] w.levels[g].l0.sub_levels[k]).sub_level_id <= w.max_committed_epoch by {
            if delta.group_deltas.contains_key(g) {
                let old_subs = v.levels[g].l0.sub_levels;
                if k < old_subs.len() {
                    assert(old_subs[k].sub_level_id <= v.max_committed_epoch);
                }
            } else {
                assert(v.levels[g].l0.sub_levels[k].sub_level_id <= v.max_committed_epoch);
            }
        }
    }
    assert(w.tables_committed());
    assert(w.has_static_groups());
    if v.ssts_in_member_groups() {
        assert forall|sst: SstableInfoView, g: CompactionGroupId|
            sst_in_group(sst, g, v.state_table_info) implies #[trigger] sst_in_group(
            sst,
            g,
            w.state_table_info,
        ) by {
            assert forall|i: int| 0 <= i < sst.table_ids.len() implies w.state_table_info
                .contains_key(#[trigger] sst.table_ids[i]) && w.state_table_info[sst.table_ids[i]]
                .compaction_group_id == g by {
                assert(v.state_table_info.contains_key(sst.table_ids[i]));
            }
        }
        assert forall|g: CompactionGroupId, k: int|
            w.levels.contains_key(g) && 0 <= k < w.levels[g].levels.len() implies level_in_group(
            #[trigger] w.levels[g].levels[k],
            g,
            w.state_table_info,
        ) by {
            let level = w.levels[g].levels[k];
            assert(level == v.levels[g].levels[k]);
            assert(level_in_group(v.levels[g].levels[k], g, v.state_table_info));
            assert forall|j: int| 0 <= j < level.table_infos.len() implies sst_in_group(
                #[trigger] level.table_infos[j],
                g,
                w.state_table_info,
            ) by {
                assert(sst_in_group(level.table_infos[j], g, v.state_table_info));
            }
        }
        assert forall|g: CompactionGroupId, k: int|
            w.levels.contains_key(g) && 0 <= k < w.levels[g].l0.sub_levels.len()
                implies level_in_group(
            #[trigger] w.levels[g].l0.sub_levels[k],
            g,
            w.state_table_info,
        ) by {
            let level = w.levels[g].l0.sub_levels[k];
            let old_subs = v.levels[g].l0.sub_levels;
            if k < old_subs.len() {
                assert(level == old_subs[k]);
                assert(level_in_group(old_subs[k], g, v.state_table_info));
                assert forall|j: int| 0 <= j < level.table_infos.len() implies sst_in_group(
                    #[trigger] level.table_infos[j],
                    g,
                    w.state_table_info,
                ) by {
                    assert(sst_in_group(level.table_infos[j], g, v.state_table_info));
                }
            } else {
                assert(delta.group_deltas.contains_key(g));
                assert(level.table_infos == ssts_for(pairs, g));
                assert forall|j: int| 0 <= j < level.table_infos.len() implies sst_in_group(
                    #[trigger] level.table_infos[j],
                    g,
                    w.state_table_info,
                ) by {
                    lemma_ssts_for(pairs, g, j);
                    let i = choose|i: int|
                        0 <= i < pairs.len() && #[trigger] pairs[i] == (g, ssts_for(pairs, g)[j]);
                    assert(pair_belongs(pairs[i], mapping, v.levels.dom()));
                    let sst = level.table_infos[j];
                    assert forall|a: int| 0 <= a < sst.table_ids.len() implies w.state_table_info
                        .contains_key(#[trigger] sst.table_ids[a]) && w.state_table_info[sst
                        .table_ids[a]].compaction_group_id == g by {
                        assert(mapping.contains_key(sst.table_ids[a]));
                    }
                }
            }
        }
    }
}

/// The first version of a store is one that commits can go on from, and
/// holds no file outside the group of its tables.
pub proof fn lemma_init_version_healthy(config: crate::levels::CompactionConfig)
    ensures
        HummockVersionView::init(config).healthy(),
        HummockVersionView::init(config).ssts_in_member_groups(),
{
    let v = HummockVersionView::init(config);
    assert forall|g: CompactionGroupId, k: int|
        v.levels.contains_key(g) && 0 <= k < v.levels[g].levels.len() implies level_in_group(
        #[trigger] v.levels[g].levels[k],
        g,
        v.state_table_info,
    ) by {
        assert(v.levels[g].levels[k].table_infos.len() == 0);
    }
}

/// Whether `after` is what a successful commit makes of `before`.
pub open spec fn commits_to(before: HummockVersionView, after: HummockVersionView) -> bool {
    exists|info: CommitEpochInfoView, new_sst_id: u64|
        before.healthy() && info.max_committed_epoch > before.max_committed_epoch
            && recorded_new_table(before.state_table_info, info.new_table_fragment_info) is None
            && after == before.applied(#[trigger] commit_delta(before, info, new_sst_id))
}

/// Whether each version of `versions` but the first is what a successful
/// commit makes of the one before it.
pub open spec fn commit_chain(versions: Seq<HummockVersionView>) -> bool {
    forall|k: int|
        0 <= k < versions.len() - 1 ==> commits_to(#[trigger] versions[k], versions[k + 1])
}

/// Along successful commits the committed epoch goes up from version to
/// version, and the safe epoch never goes down.
pub proof fn lemma_commits_advance_epochs(versions: Seq<HummockVersionView>, i: int, j: int)
    requires
        commit_chain(versions),
        0 <= i < j < versions.len(),
    ensures
        versions[i].max_committed_epoch < versions[j].max_committed_epoch,
        versions[i].safe_epoch <= versions[j].safe_epoch,
    decreases j - i,
{
    assert(commits_to(versions[j - 1], versions[j]));
    if i < j - 1 {
        lemma_commits_advance_epochs(versions, i, j - 1);
    }
}

/// Along successful commits from a version in which every file lies in
/// the group of its tables, every version is one in which every file lies
/// in the group of its tables.
pub proof fn lemma_commits_keep_ssts_in_groups(versions: Seq<HummockVersionView>, j: int)
    requires
        commit_chain(versions),
        0 <= j < versions.len(),
        versions[0].ssts_in_member_groups(),
    ensures
        versions[j].ssts_in_member_groups(),
    decreases j,
{
    if j > 0 {
        lemma_commits_keep_ssts_in_groups(versions, j - 1);
        assert(commits_to(versions[j - 1], versions[j]));
        let (info, new_sst_id) = choose|info: CommitEpochInfoView, new_sst_id: u64|
            versions[j - 1].healthy() && info.max_committed_epoch > versions[j
                - 1].max_committed_epoch && recorded_new_table(
                versions[j - 1].state_table_info,
                info.new_table_fragment_info,
            ) is None && versions[j] == versions[j - 1].applied(
                #[trigger] commit_delta(versions[j - 1], info, new_sst_id),
            );
        lemma_commit_delta_applies(versions[j - 1], info, new_sst_id);
    }
}

/// The version that the deltas `deltas`, applied one after the other,
/// make of `v`.
pub open spec fn replayed(v: HummockVersionView, deltas: Seq<HummockVersionDeltaView>) -> HummockVersionView
    decreases deltas.len(),
{
    if deltas.len() == 0 {
        v
    } else {
        replayed(v, deltas.drop_last()).applied(deltas.last())
    }
}

/// To replay the deltas of a run of commits on the version that the run
/// went on from makes the version that the run came to.
pub proof fn lemma_replay_reproduces_commits(
    versions: Seq<HummockVersionView>,
    deltas: Seq<HummockVersionDeltaView>,
)
    requires
        versions.len() == deltas.len() + 1,
        forall|k: int|
            0 <= k < deltas.len() ==> #[trigger] versions[k + 1] == versions[k].applied(deltas[k]),
    ensures
        replayed(versions[0], deltas) == versions.last(),
    decreases deltas.len(),
{
    if deltas.len() > 0 {
        let n = deltas.len() - 1;
        let shorter = versions.drop_last();
        assert forall|k: int| 0 <= k < n implies #[trigger] shorter[k + 1] == shorter[k].applied(
            deltas.drop_last()[k],
        ) by {
            assert(shorter[k + 1] == versions[k + 1]);
            assert(shorter[k] == versions[k]);
        }
        lemma_replay_reproduces_commits(shorter, deltas.drop_last());
        assert(shorter.last() == versions[n]);
        assert(versions.last() == versions[n + 1]);
        assert(deltas.last() == deltas[n]);
    }
}

} // verus!
