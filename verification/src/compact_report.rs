//! The end of a compaction task: the files that the task read leave
//! their levels, the files that it wrote enter the level that it aimed
//! at, and a new version with these changes becomes the current one.

use vstd::prelude::*;
use std::collections::HashMap;
use crate::commit_epoch::{
    commit_delta, recorded_new_table, CommitEpochInfoView, Error, HummockManager,
};
use crate::commit_laws::{commits_to, lemma_commit_delta_applies};
use crate::compact_laws::{
    group_sound, lemma_file_moves_keep_group_sound, moves_files_of_group, ssts_in_group,
};
use crate::compaction::{CompactionInput, CompactionInputView, InputLevelView};
use crate::group_apply::{apply_group_deltas, group_deltas_apply};
use crate::group_delta::{
    DeltaType, DeltaTypeView, GroupDelta, GroupDeltaView, GroupDeltas, IntraLevelDelta,
    IntraLevelDeltaView,
};
use crate::key::TableId;
use crate::levels::{ssts_view, HummockSstableId, SstableInfo, SstableInfoView};
use crate::state_table_info::{CompactionGroupId, StateTableInfo};
use crate::version::{
    group_of, level_in_group, sst_in_group, HummockVersion, HummockVersionDelta,
    HummockVersionDeltaView, HummockVersionView,
};

verus! {

/// How a compaction task ended.
#[derive(Debug, Clone, Copy, PartialEq, Eq, Structural)]
pub enum TaskStatus {
    /// The task wrote its files.
    Success,
    /// The task was called off.
    ManualCanceled,
    /// The task failed.
    ExecuteFailed,
}

/// The ids of the files `ssts`, in their order.
pub open spec fn ids_of(ssts: Seq<SstableInfoView>) -> Seq<HummockSstableId> {
    ssts.map_values(|s: SstableInfoView| s.sst_id)
}

/// The change by which the files that a task read from one level leave
/// that level.
pub open spec fn leaving(level: InputLevelView) -> GroupDeltaView {
    GroupDeltaView {
        delta_type: Some(
            DeltaTypeView::IntraLevel(
                IntraLevelDeltaView {
                    level_idx: level.level_idx,
                    l0_sub_level_id: 0,
                    removed_table_ids: ids_of(level.table_infos),
                    inserted_table_infos: Seq::empty(),
                },
            ),
        ),
    }
}

/// The change by which the files `outputs` that a task wrote enter the
/// level that the task aimed at.
pub open spec fn entering(input: CompactionInputView, outputs: Seq<SstableInfoView>) -> GroupDeltaView {
    GroupDeltaView {
        delta_type: Some(
            DeltaTypeView::IntraLevel(
                IntraLevelDeltaView {
                    level_idx: input.target_level as u32,
                    l0_sub_level_id: input.target_sub_level_id,
                    removed_table_ids: Seq::empty(),
                    inserted_table_infos: outputs,
                },
            ),
        ),
    }
}

/// The changes that the end of a task makes to its group: the files that
/// it read leave, level by level in the order of its input, and then the
/// files that it wrote enter.
pub open spec fn compact_group_deltas(
    input: CompactionInputView,
    outputs: Seq<SstableInfoView>,
) -> Seq<GroupDeltaView> {
    input.input_levels.map_values(|level: InputLevelView| leaving(level)).push(
        entering(input, outputs),
    )
}

/// The delta of the end of a task of group `g` that read `input` and
/// wrote `outputs`: it follows version `v`, changes the files of the
/// group, and leaves the epochs and the tables as they are.
pub open spec fn compact_delta(
    v: HummockVersionView,
    g: CompactionGroupId,
    input: CompactionInputView,
    outputs: Seq<SstableInfoView>,
) -> HummockVersionDeltaView {
    HummockVersionDeltaView {
        group_deltas: Map::<CompactionGroupId, Seq<GroupDeltaView>>::empty().insert(
            g,
            compact_group_deltas(input, outputs),
        ),
        ..v.delta_after()
    }
}

/// Whether the end of a task can be taken into version `v`: the level
/// that the task aimed at can be named, every table of a file that it
/// wrote is a member of the group, and the changes can be made to the
/// group as it is now.
pub open spec fn reportable(
    v: HummockVersionView,
    g: CompactionGroupId,
    input: CompactionInputView,
    outputs: Seq<SstableInfoView>,
) -> bool {
    &&& input.target_level <= u32::MAX
    &&& ssts_in_group(outputs, g, v.state_table_info)
    &&& v.can_apply(compact_delta(v, g, input, outputs))
}

/// The delta of the end of a task that can be taken makes a version with
/// the same epochs, tables, watermarks and change logs, in which only the
/// files of the group of the task have changed. Where commits can go on
/// from the old version, they can go on from the new one; and where
/// every file of the old version lies in the group of its tables, so
/// does every file of the new one.
pub proof fn lemma_compact_delta_keeps_version(
    v: HummockVersionView,
    g: CompactionGroupId,
    input: CompactionInputView,
    outputs: Seq<SstableInfoView>,
)
    requires
        v.healthy(),
        v.ssts_in_member_groups(),
        reportable(v, g, input, outputs),
    ensures
        v.levels.contains_key(g),
        apply_group_deltas(Some(v.levels[g]), g, compact_group_deltas(input, outputs), false)
            is Some,
        v.applied(compact_delta(v, g, input, outputs)) == (HummockVersionView {
            id: (v.id + 1) as u64,
            levels: v.levels.insert(
                g,
                apply_group_deltas(
                    Some(v.levels[g]),
                    g,
                    compact_group_deltas(input, outputs),
                    false,
                )->0,
            ),
            ..v
        }),
        v.applied(compact_delta(v, g, input, outputs)).healthy(),
        v.applied(compact_delta(v, g, input, outputs)).ssts_in_member_groups(),
{
    let deltas = compact_group_deltas(input, outputs);
    let delta = compact_delta(v, g, input, outputs);
    let w = v.applied(delta);
    let info = v.state_table_info;
    assert(delta.group_deltas.contains_key(g));
    assert(!v.is_commit(delta));
    assert(group_deltas_apply(group_of(v.levels, g), g, deltas, false));
    // the changes need the group
    assert(v.levels.contains_key(g)) by {
        assert(deltas.last() == entering(input, outputs));
        if !v.levels.contains_key(g) {
            lemma_no_group_stays_none(g, deltas.drop_last());
        }
    }
    let group = v.levels[g];
    assert(group_sound(group, g, info, v.max_committed_epoch));
    assert forall|i: int| 0 <= i < deltas.len() implies moves_files_of_group(
        #[trigger] deltas[i],
        g,
        info,
    ) by {
        if i < input.input_levels.len() {
            assert(deltas[i] == leaving(input.input_levels[i]));
        }
    }
    lemma_file_moves_keep_group_sound(group, deltas, g, info, v.max_committed_epoch);
    let after = apply_group_deltas(Some(group), g, deltas, false)->0;
    assert(w.levels =~= v.levels.insert(g, after));
    assert(w.state_table_info =~= info);
    assert(w.table_watermarks =~= v.table_watermarks);
    assert(w.table_change_log =~= v.table_change_log) by {
        assert forall|t: TableId| #[trigger]
            w.table_change_log.contains_key(t) implies w.table_change_log[t]
            == v.table_change_log[t] by {}
    }
    assert(w.sub_levels_committed()) by {
        assert forall|h: CompactionGroupId, k: int|
            w.levels.contains_key(h) && 0 <= k < w.levels[h].l0.sub_levels.len() implies (
        #[trigger] w.levels[h].l0.sub_levels[k]).sub_level_id <= w.max_committed_epoch by {
            if h != g {
                assert(w.levels[h] == v.levels[h]);
            }
        }
    }
    assert(w.tables_in_groups()) by {
        assert forall|t: TableId| #[trigger]
            w.state_table_info.contains_key(t) implies w.levels.contains_key(
            w.state_table_info[t].compaction_group_id,
        ) by {
            assert(v.state_table_info.contains_key(t));
        }
    }
    assert(w.tables_committed()) by {
        assert forall|t: TableId| #[trigger]
            w.state_table_info.contains_key(t) implies w.state_table_info[t].safe_epoch
            <= w.state_table_info[t].committed_epoch && w.state_table_info[t].committed_epoch
            <= w.max_committed_epoch by {
            assert(v.state_table_info.contains_key(t));
        }
    }
    assert(w.ssts_in_member_groups()) by {
        assert forall|h: CompactionGroupId, k: int|
            w.levels.contains_key(h) && 0 <= k < w.levels[h].levels.len() implies level_in_group(
            #[trigger] w.levels[h].levels[k],
            h,
            w.state_table_info,
        ) by {
            if h != g {
                assert(w.levels[h] == v.levels[h]);
            }
        }
        assert forall|h: CompactionGroupId, k: int|
            w.levels.contains_key(h) && 0 <= k < w.levels[h].l0.sub_levels.len()
            implies level_in_group(#[trigger] w.levels[h].l0.sub_levels[k], h, w.state_table_info) by {
            if h != g {
                assert(w.levels[h] == v.levels[h]);
            }
        }
    }
}

/// Whether `after` is what the end of a compaction task that could be
/// taken makes of `before`.
pub open spec fn compacts_to(before: HummockVersionView, after: HummockVersionView) -> bool {
    exists|g: CompactionGroupId, input: CompactionInputView, outputs: Seq<SstableInfoView>|
        before.healthy() && before.ssts_in_member_groups() && reportable(before, g, input, outputs)
            && after == before.applied(#[trigger] compact_delta(before, g, input, outputs))
}

/// Whether each version of `versions` but the first is what a successful
/// commit, or the end of a compaction task, makes of the one before it.
pub open spec fn version_chain(versions: Seq<HummockVersionView>) -> bool {
    forall|k: int|
        0 <= k < versions.len() - 1 ==> commits_to(#[trigger] versions[k], versions[k + 1])
            || compacts_to(versions[k], versions[k + 1])
}

/// Along commits and ends of compaction tasks neither the committed epoch
/// nor the safe epoch ever goes down.
pub proof fn lemma_epochs_never_go_down(versions: Seq<HummockVersionView>, i: int, j: int)
    requires
        version_chain(versions),
        0 <= i <= j < versions.len(),
    ensures
        versions[i].max_committed_epoch <= versions[j].max_committed_epoch,
        versions[i].safe_epoch <= versions[j].safe_epoch,
    decreases j - i,
{
    if i < j {
        lemma_epochs_never_go_down(versions, i, j - 1);
        assert(commits_to(versions[j - 1], versions[j]) || compacts_to(
            versions[j - 1],
            versions[j],
        ));
    }
}

/// Along commits and ends of compaction tasks, from a version in which
/// every file lies in the group of its tables, every version is one in
/// which every file lies in the group of its tables.
pub proof fn lemma_files_stay_in_their_groups(versions: Seq<HummockVersionView>, j: int)
    requires
        version_chain(versions),
        0 <= j < versions.len(),
        versions[0].ssts_in_member_groups(),
    ensures
        versions[j].ssts_in_member_groups(),
    decreases j,
{
    if j > 0 {
        lemma_files_stay_in_their_groups(versions, j - 1);
        let before = versions[j - 1];
        assert(commits_to(before, versions[j]) || compacts_to(before, versions[j]));
        if commits_to(before, versions[j]) {
            let (info, new_sst_id) = choose|info: CommitEpochInfoView, new_sst_id: u64|
                before.healthy() && info.max_committed_epoch > before.max_committed_epoch
                    && recorded_new_table(before.state_table_info, info.new_table_fragment_info)
                    is None && versions[j] == before.applied(
                    #[trigger] commit_delta(before, info, new_sst_id),
                );
            lemma_commit_delta_applies(before, info, new_sst_id);
        } else {
            let (g, input, outputs) = choose|
                g: CompactionGroupId,
                input: CompactionInputView,
                outputs: Seq<SstableInfoView>,
            |
                before.healthy() && before.ssts_in_member_groups() && reportable(
                    before,
                    g,
                    input,
                    outputs,
                ) && versions[j] == before.applied(
                    #[trigger] compact_delta(before, g, input, outputs),
                );
            lemma_compact_delta_keeps_version(before, g, input, outputs);
        }
    }
}

/// Changes of table files leave a group that is not there as it is: not
/// there.
proof fn lemma_no_group_stays_none(g: CompactionGroupId, deltas: Seq<GroupDeltaView>)
    requires
        forall|i: int|
            0 <= i < deltas.len() ==> (#[trigger] deltas[i]).delta_type matches Some(
                DeltaTypeView::IntraLevel(_),
            ),
        group_deltas_apply(None, g, deltas, false),
    ensures
        deltas.len() == 0,
    decreases deltas.len(),
{
    if deltas.len() > 0 {
        let before = deltas.drop_last();
        assert forall|i: int| 0 <= i < before.len() implies (
        #[trigger] before[i]).delta_type matches Some(DeltaTypeView::IntraLevel(_)) by {
            assert(before[i] == deltas[i]);
        }
        lemma_no_group_stays_none(g, before);
        assert(before.len() == 0);
        assert(apply_group_deltas(None, g, before, false) is None);
        assert(deltas.last() == deltas[deltas.len() - 1]);
    }
}

/// The ids of the files `ssts`, in their order.
fn sst_ids_of(ssts: &Vec<SstableInfo>) -> (r: Vec<HummockSstableId>)
    ensures
        r@ == ids_of(ssts_view(ssts@)),
{
    let mut ids: Vec<HummockSstableId> = Vec::new();
    let mut i: usize = 0;
    while i < ssts.len()
        invariant
            i <= ssts.len(),
            ids@ == ids_of(ssts_view(ssts@)).take(i as int),
        decreases ssts.len() - i,
    {
        ids.push(ssts[i].sst_id);
        proof {
            assert(ids@ =~= ids_of(ssts_view(ssts@)).take(i + 1));
        }
        i = i + 1;
    }
    proof {
        assert(ids@ =~= ids_of(ssts_view(ssts@)));
    }
    ids
}

/// Whether every table of every file of `ssts` is recorded by `info` as a
/// member of group `g`.
fn files_lie_in_group(
    ssts: &Vec<SstableInfo>,
    g: CompactionGroupId,
    info: &HashMap<TableId, StateTableInfo>,
) -> (r: bool)
    ensures
        r == ssts_in_group(ssts_view(ssts@), g, info@),
{
    broadcast use vstd::std_specs::hash::group_hash_axioms;

    let ghost all = ssts_view(ssts@);
    let mut j: usize = 0;
    while j < ssts.len()
        invariant
            j <= ssts.len(),
            all == ssts_view(ssts@),
            forall|k: int| 0 <= k < j ==> sst_in_group(#[trigger] all[k], g, info@),
        decreases ssts.len() - j,
    {
        let table_ids = &ssts[j].table_ids;
        let mut i: usize = 0;
        while i < table_ids.len()
            invariant
                i <= table_ids.len(),
                j < ssts.len(),
                all == ssts_view(ssts@),
                table_ids@ == all[j as int].table_ids,
                forall|k: int|
                    0 <= k < i ==> info@.contains_key(#[trigger] table_ids@[k])
                        && info@[table_ids@[k]].compaction_group_id == g,
            decreases table_ids.len() - i,
        {
            let lies = match info.get(&table_ids[i]) {
                Some(record) => record.compaction_group_id == g,
                None => false,
            };
            if !lies {
                proof {
                    assert(!sst_in_group(all[j as int], g, info@)) by {
                        assert(all[j as int].table_ids[i as int] == table_ids@[i as int]);
                    }
                }
                return false;
            }
            i = i + 1;
        }
        j = j + 1;
    }
    true
}

/// The changes that the end of a task makes to its group.
fn build_compact_group_deltas(input: &CompactionInput, outputs: Vec<SstableInfo>) -> (r: GroupDeltas)
    requires
        input.target_level <= u32::MAX,
    ensures
        r@ == compact_group_deltas(input@, ssts_view(outputs@)),
{
    let ghost levels = input@.input_levels;
    let ghost gone = levels.map_values(|level: InputLevelView| leaving(level));
    let mut group_deltas: Vec<GroupDelta> = Vec::new();
    let mut i: usize = 0;
    while i < input.input_levels.len()
        invariant
            i <= input.input_levels.len(),
            levels == input@.input_levels,
            gone == levels.map_values(|level: InputLevelView| leaving(level)),
            gone.len() == input.input_levels.len(),
            group_deltas@.len() == i,
            crate::group_delta::group_deltas_view(group_deltas@) == gone.take(i as int),
        decreases input.input_levels.len() - i,
    {
        let level = &input.input_levels[i];
        let group_delta = GroupDelta {
            delta_type: Some(
                DeltaType::IntraLevel(
                    IntraLevelDelta {
                        level_idx: level.level_idx,
                        l0_sub_level_id: 0,
                        removed_table_ids: sst_ids_of(&level.table_infos),
                        inserted_table_infos: Vec::new(),
                    },
                ),
            ),
        };
        proof {
            assert(levels[i as int] == level@);
            assert(ssts_view(Seq::<SstableInfo>::empty()) =~= Seq::<SstableInfoView>::empty());
            assert(group_delta@ == leaving(level@));
        }
        let ghost change = group_delta@;
        group_deltas.push(group_delta);
        proof {
            assert(gone[i as int] == leaving(levels[i as int]));
            assert(group_deltas@[i as int]@ == change);
            assert(crate::group_delta::group_deltas_view(group_deltas@) =~= gone.take(i + 1));
        }
        i = i + 1;
    }
    let ghost entered = ssts_view(outputs@);
    let group_delta = GroupDelta {
        delta_type: Some(
            DeltaType::IntraLevel(
                IntraLevelDelta {
                    level_idx: input.target_level as u32,
                    l0_sub_level_id: input.target_sub_level_id,
                    removed_table_ids: Vec::new(),
                    inserted_table_infos: outputs,
                },
            ),
        ),
    };
    proof {
        assert(group_delta@ == entering(input@, entered));
        assert(gone.take(input.input_levels.len() as int) =~= gone);
    }
    group_deltas.push(group_delta);
    proof {
        assert(crate::group_delta::group_deltas_view(group_deltas@) =~= gone.push(
            entering(input@, entered),
        ));
    }
    GroupDeltas { group_deltas }
}

/// What the end of a task has been worked out to, and the store has to
/// keep before it takes effect.
#[derive(Debug)]
pub struct CompactReport {
    /// The version that the end of the task makes.
    pub version: HummockVersion,
    /// The delta that takes the current version to it.
    pub delta: HummockVersionDelta,
}

impl HummockManager {
    /// What the report of a task of group `g` comes to. A task that did
    /// not succeed, or whose end cannot be taken into the current
    /// version, changes no version. Else the report makes a plan: the
    /// delta of the end of the task, and the version that the delta
    /// makes of the current one.
    pub open spec fn reports(
        &self,
        g: CompactionGroupId,
        input: CompactionInputView,
        task_status: TaskStatus,
        outputs: Seq<SstableInfoView>,
        r: Option<CompactReport>,
    ) -> bool {
        let v = self.versioning.current_version@;
        if task_status == TaskStatus::Success && reportable(v, g, input, outputs) {
            &&& r is Some
            &&& r->0.delta@ == compact_delta(v, g, input, outputs)
            &&& r->0.version.wf()
            &&& r->0.version@ == v.applied(compact_delta(v, g, input, outputs))
            &&& r->0.version@.healthy()
            &&& r->0.version@.ssts_in_member_groups()
        } else {
            r is None
        }
    }

    /// Works out what the end of a task of group `compaction_group_id`
    /// does to the store, where the task read `input` and wrote
    /// `sorted_output_ssts`.
    pub fn report_compact_task(
        &self,
        compaction_group_id: CompactionGroupId,
        input: &CompactionInput,
        task_status: TaskStatus,
        sorted_output_ssts: Vec<SstableInfo>,
    ) -> (r: Option<CompactReport>)
        requires
            self.wf(),
            self.versioning.current_version.id < u64::MAX,
        ensures
            self.reports(
                compaction_group_id,
                input@,
                task_status,
                ssts_view(sorted_output_ssts@),
                r,
            ),
    {
        broadcast use vstd::std_specs::hash::group_hash_axioms;

        let ghost v = self.versioning.current_version@;
        let ghost outputs = ssts_view(sorted_output_ssts@);
        match task_status {
            TaskStatus::Success => {},
            _ => {
                return None;
            },
        }
        if input.target_level > u32::MAX as usize {
            return None;
        }
        let version = &self.versioning.current_version;
        if !files_lie_in_group(&sorted_output_ssts, compaction_group_id, version.state_table_info.info()) {
            return None;
        }
        let mut delta = version.version_delta_after();
        let group_deltas = build_compact_group_deltas(input, sorted_output_ssts);
        delta.group_deltas.insert(compaction_group_id, group_deltas);
        proof {
            assert(delta@.group_deltas =~= compact_delta(
                v,
                compaction_group_id,
                input@,
                outputs,
            ).group_deltas);
            assert(delta@ == compact_delta(v, compaction_group_id, input@, outputs));
        }
        if !version.can_apply_version_delta(&delta) {
            return None;
        }
        let mut new_version = version.clone();
        new_version.apply_version_delta(&delta);
        proof {
            lemma_compact_delta_keeps_version(v, compaction_group_id, input@, outputs);
        }
        Some(CompactReport { version: new_version, delta })
    }

    /// Lets the end of a task take effect, if the store has kept it:
    /// `persisted` says whether it has. Where it has not, nothing changes.
    pub fn finish_compact_report(&mut self, report: CompactReport, persisted: bool) -> (r: Result<
        (),
        Error,
    >)
        requires
            old(self).wf(),
            report.version.wf(),
            report.version@.healthy(),
            report.version@.ssts_in_member_groups(),
            report.version@.max_committed_epoch == old(
                self,
            ).versioning.current_version@.max_committed_epoch,
        ensures
            !persisted ==> r == Err::<(), Error>(Error::MetaStore) && *final(self) == *old(self),
            persisted ==> {
                &&& r == Ok::<(), Error>(())
                &&& final(self).wf()
                &&& final(self).versioning.current_version == report.version
                &&& final(self).versioning.hummock_version_deltas@ == old(
                    self,
                ).versioning.hummock_version_deltas@.insert(report.delta.id, report.delta)
                &&& final(self).versioning.version_stats == old(self).versioning.version_stats
                &&& final(self).versioning.disable_commit_epochs == old(
                    self,
                ).versioning.disable_commit_epochs
                &&& final(self).latest_snapshot == old(self).latest_snapshot
                &&& final(self).history_table_throughput == old(self).history_table_throughput
                &&& final(self).table_info_statistic_history_times == old(
                    self,
                ).table_info_statistic_history_times
            },
    {
        broadcast use vstd::std_specs::btree::group_btree_axioms;

        if !persisted {
            return Err(Error::MetaStore);
        }
        let CompactReport { version, delta } = report;
        self.versioning.current_version = version;
        self.versioning.hummock_version_deltas.insert(delta.id, delta);
        Ok(())
    }
}

} // verus!
