//! The table files of a commit, each with the compaction group that it
//! is to enter, put in the order of their groups.

use vstd::prelude::*;
use itertools::Itertools;
use std::collections::HashMap;
use crate::group_delta::{
    DeltaType, DeltaTypeView, GroupDelta, GroupDeltaView, GroupDeltas, IntraLevelDelta,
    IntraLevelDeltaView,
};
use crate::key::TableId;
use crate::levels::{clone_ssts, ssts_view, SstableInfo, SstableInfoView};
use crate::state_table_info::CompactionGroupId;
use crate::table_stats::{TableStats, TableStatsMap};

verus! {

/// What an `ExtendedSstableInfo` stands for.
pub struct ExtendedSstableInfoView {
    pub compaction_group_id: CompactionGroupId,
    pub sst_info: SstableInfoView,
    pub table_stats: Map<TableId, TableStats>,
}

/// A table file with the compaction group that it is to enter and the
/// statistics of its tables.
#[derive(Debug, PartialEq, Eq)]
pub struct ExtendedSstableInfo {
    pub compaction_group_id: CompactionGroupId,
    pub sst_info: SstableInfo,
    pub table_stats: TableStatsMap,
}

/// A table file as a writer hands it in.
pub type LocalSstableInfo = ExtendedSstableInfo;

impl View for ExtendedSstableInfo {
    type V = ExtendedSstableInfoView;

    open spec fn view(&self) -> ExtendedSstableInfoView {
        ExtendedSstableInfoView {
            compaction_group_id: self.compaction_group_id,
            sst_info: self.sst_info@,
            table_stats: self.table_stats@,
        }
    }
}

impl ExtendedSstableInfo {
    pub fn new(
        compaction_group_id: CompactionGroupId,
        sst_info: SstableInfo,
        table_stats: TableStatsMap,
    ) -> (r: Self)
        ensures
            r@ == (ExtendedSstableInfoView {
                compaction_group_id,
                sst_info: sst_info@,
                table_stats: table_stats@,
            }),
    {
        Self { compaction_group_id, sst_info, table_stats }
    }

    /// The file `sst_info` for group `compaction_group_id`, without
    /// statistics.
    pub fn with_compaction_group(compaction_group_id: CompactionGroupId, sst_info: SstableInfo) -> (r:
        Self)
        ensures
            r@ == (ExtendedSstableInfoView {
                compaction_group_id,
                sst_info: sst_info@,
                table_stats: Map::empty(),
            }),
    {
        Self { compaction_group_id, sst_info, table_stats: HashMap::new() }
    }
}

/// The files of a vector, each by its view.
pub open spec fn extended_view(ssts: Seq<ExtendedSstableInfo>) -> Seq<ExtendedSstableInfoView> {
    ssts.map_values(|e: ExtendedSstableInfo| e@)
}

/// The test "the file is to enter group `g`".
pub open spec fn in_group(g: CompactionGroupId) -> spec_fn(ExtendedSstableInfo) -> bool {
    |e: ExtendedSstableInfo| e.compaction_group_id == g
}

/// The groups of the files never go down.
pub open spec fn sorted_by_group(ssts: Seq<ExtendedSstableInfo>) -> bool {
    forall|i: int, j: int|
        0 <= i <= j < ssts.len() ==> (#[trigger] ssts[i]).compaction_group_id <= (
        #[trigger] ssts[j]).compaction_group_id
}

/// For every group, `a` and `b` hold the same files for it, in the same
/// order.
pub open spec fn same_files_per_group(
    a: Seq<ExtendedSstableInfo>,
    b: Seq<ExtendedSstableInfo>,
) -> bool {
    forall|g: CompactionGroupId| #[trigger] a.filter(in_group(g)) == b.filter(in_group(g))
}

/// The files of `groups`, one group after the other.
pub open spec fn flattened(groups: Seq<(CompactionGroupId, Vec<ExtendedSstableInfo>)>) -> Seq<
    ExtendedSstableInfo,
>
    decreases groups.len(),
{
    if groups.len() == 0 {
        Seq::empty()
    } else {
        flattened(groups.drop_last()) + groups.last().1@
    }
}

/// `groups` are runs of files for one group each: no run is empty, every
/// file of a run is for the group of the run, and a run is not for the
/// group of the run before it.
pub open spec fn runs_by_group(groups: Seq<(CompactionGroupId, Vec<ExtendedSstableInfo>)>) -> bool {
    &&& forall|i: int| 0 <= i < groups.len() ==> (#[trigger] groups[i]).1@.len() > 0
    &&& forall|i: int, j: int|
        0 <= i < groups.len() && 0 <= j < groups[i].1@.len() ==> (
        #[trigger] groups[i].1@[j]).compaction_group_id == groups[i].0
    &&& forall|i: int| 0 <= i < groups.len() - 1 ==> (#[trigger] groups[i]).0 != groups[i + 1].0
}

/// Calls `Itertools::sorted_by_key` of the crate itertools with the group
/// of a file as the key. The contract claims what the crate documents: a
/// stable sort in ascending order, that is, the same files, in the order
/// of their groups, and for each group in the order in which they came.
#[verifier::external_body]
pub(crate) fn sorted_by_compaction_group(sstables: Vec<ExtendedSstableInfo>) -> (r: Vec<
    ExtendedSstableInfo,
>)
    ensures
        r@.len() == sstables@.len(),
        sorted_by_group(r@),
        same_files_per_group(sstables@, r@),
{
    sstables.into_iter().sorted_by_key(|e| e.compaction_group_id).collect_vec()
}

/// Calls `Itertools::group_by` of the crate itertools with the group of a
/// file as the key, and collects each group that it yields. The contract
/// claims what the crate documents: consecutive files with the same key
/// make one group, so the groups, one after the other, are the files as
/// they came, and each group is a longest run of files with one key.
#[verifier::external_body]
pub(crate) fn grouped_by_compaction_group(sstables: Vec<ExtendedSstableInfo>) -> (r: Vec<
    (CompactionGroupId, Vec<ExtendedSstableInfo>),
>)
    ensures
        flattened(r@) == sstables@,
        runs_by_group(r@),
{
    let mut groups = Vec::new();
    for (key, group) in &sstables.into_iter().group_by(|e| e.compaction_group_id) {
        groups.push((key, group.collect_vec()));
    }
    groups
}

/// In runs of sorted files the groups of the runs go up.
pub proof fn lemma_run_groups_increase(groups: Seq<(CompactionGroupId, Vec<ExtendedSstableInfo>)>)
    requires
        runs_by_group(groups),
        sorted_by_group(flattened(groups)),
    ensures
        forall|i: int, j: int|
            0 <= i < j < groups.len() ==> (#[trigger] groups[i]).0 < (#[trigger] groups[j]).0,
    decreases groups.len(),
{
    if groups.len() > 1 {
        let rest = groups.drop_last();
        let flat = flattened(groups);
        let flat_rest = flattened(rest);
        assert(flat == flat_rest + groups.last().1@);
        assert(runs_by_group(rest)) by {
            assert forall|i: int| 0 <= i < rest.len() implies (#[trigger] rest[i]).1@.len() > 0 by {
                assert(rest[i] == groups[i]);
            }
            assert forall|i: int, j: int|
                0 <= i < rest.len() && 0 <= j < rest[i].1@.len() implies (
            #[trigger] rest[i].1@[j]).compaction_group_id == rest[i].0 by {
                assert(rest[i] == groups[i]);
            }
            assert forall|i: int| 0 <= i < rest.len() - 1 implies (#[trigger] rest[i]).0 != rest[i
                + 1].0 by {
                assert(rest[i] == groups[i]);
                assert(rest[i + 1] == groups[i + 1]);
            }
        }
        assert(sorted_by_group(flat_rest)) by {
            assert forall|i: int, j: int| 0 <= i <= j < flat_rest.len() implies (
            #[trigger] flat_rest[i]).compaction_group_id <= (
            #[trigger] flat_rest[j]).compaction_group_id by {
                assert(flat[i] == flat_rest[i]);
                assert(flat[j] == flat_rest[j]);
            }
        }
        lemma_run_groups_increase(rest);
        let n = groups.len() - 1;
        lemma_flattened_ends_with_last(rest);
        // the last file of the run before the last lies before the first file of the last run
        let before = rest.last();
        assert(before == groups[n - 1]);
        assert(groups.last() == groups[n]);
        let a = flat_rest.len() - 1;
        assert(flat_rest[a] == before.1@.last());
        assert(flat[a] == flat_rest[a]);
        assert(flat[flat_rest.len() as int] == groups[n].1@[0]);
        assert(flat[a].compaction_group_id <= flat[flat_rest.len() as int].compaction_group_id);
        assert(before.1@.last() == before.1@[before.1@.len() - 1]);
        assert(groups[n - 1].0 != groups[n].0);
        assert forall|i: int, j: int| 0 <= i < j < groups.len() implies (#[trigger] groups[i]).0 < (
        #[trigger] groups[j]).0 by {
            if j < n {
                assert(rest[i] == groups[i]);
                assert(rest[j] == groups[j]);
            } else if i < n - 1 {
                assert(rest[i] == groups[i]);
                assert(rest[n - 1] == groups[n - 1]);
            }
        }
    }
}

/// Runs that are not empty, one after the other, end with the last file
/// of the last run.
pub proof fn lemma_flattened_ends_with_last(groups: Seq<(CompactionGroupId, Vec<ExtendedSstableInfo>)>)
    requires
        groups.len() > 0,
        groups.last().1@.len() > 0,
    ensures
        flattened(groups).len() > 0,
        flattened(groups).last() == groups.last().1@.last(),
{
}

/// The files for group `g` among runs whose groups go up: the run for
/// `g`, if there is one.
pub proof fn lemma_run_is_filter(
    groups: Seq<(CompactionGroupId, Vec<ExtendedSstableInfo>)>,
    g: CompactionGroupId,
)
    requires
        runs_by_group(groups),
        forall|i: int, j: int|
            0 <= i < j < groups.len() ==> (#[trigger] groups[i]).0 < (#[trigger] groups[j]).0,
    ensures
        forall|i: int|
            0 <= i < groups.len() && (#[trigger] groups[i]).0 == g ==> flattened(groups).filter(
                in_group(g),
            ) == groups[i].1@,
        (forall|i: int| 0 <= i < groups.len() ==> (#[trigger] groups[i]).0 != g) ==> flattened(
            groups,
        ).filter(in_group(g)) == Seq::<ExtendedSstableInfo>::empty(),
    decreases groups.len(),
{
    reveal(Seq::filter);
    if groups.len() > 0 {
        let rest = groups.drop_last();
        let last = groups.last();
        assert(last == groups[groups.len() - 1]);
        assert(runs_by_group(rest)) by {
            assert forall|i: int| 0 <= i < rest.len() implies (#[trigger] rest[i]).1@.len() > 0 by {
                assert(rest[i] == groups[i]);
            }
            assert forall|i: int, j: int|
                0 <= i < rest.len() && 0 <= j < rest[i].1@.len() implies (
            #[trigger] rest[i].1@[j]).compaction_group_id == rest[i].0 by {
                assert(rest[i] == groups[i]);
            }
            assert forall|i: int| 0 <= i < rest.len() - 1 implies (#[trigger] rest[i]).0 != rest[i
                + 1].0 by {
                assert(rest[i] == groups[i]);
                assert(rest[i + 1] == groups[i + 1]);
            }
        }
        assert forall|i: int, j: int| 0 <= i < j < rest.len() implies (#[trigger] rest[i]).0 < (
        #[trigger] rest[j]).0 by {
            assert(rest[i] == groups[i]);
            assert(rest[j] == groups[j]);
        }
        lemma_run_is_filter(rest, g);
        Seq::filter_distributes_over_add(flattened(rest), last.1@, in_group(g));
        if last.0 == g {
            lemma_filter_all(last.1@, g);
            assert forall|i: int| 0 <= i < rest.len() implies (#[trigger] rest[i]).0 != g by {
                assert(rest[i] == groups[i]);
            }
            assert(flattened(rest).filter(in_group(g)) + last.1@ =~= last.1@);
        } else {
            lemma_filter_none(last.1@, last.0, g);
            assert(flattened(rest).filter(in_group(g)) + Seq::<ExtendedSstableInfo>::empty()
                =~= flattened(rest).filter(in_group(g)));
            assert forall|i: int| 0 <= i < groups.len() && (#[trigger] groups[i]).0
                == g implies flattened(groups).filter(in_group(g)) == groups[i].1@ by {
                assert(rest[i] == groups[i]);
            }
            if forall|i: int| 0 <= i < groups.len() ==> (#[trigger] groups[i]).0 != g {
                assert forall|i: int| 0 <= i < rest.len() implies (#[trigger] rest[i]).0 != g by {
                    assert(rest[i] == groups[i]);
                }
            }
        }
    }
}

/// Files that are all for group `g` pass the test for `g`.
pub proof fn lemma_filter_all(ssts: Seq<ExtendedSstableInfo>, g: CompactionGroupId)
    requires
        forall|j: int| 0 <= j < ssts.len() ==> (#[trigger] ssts[j]).compaction_group_id == g,
    ensures
        ssts.filter(in_group(g)) == ssts,
    decreases ssts.len(),
{
    reveal(Seq::filter);
    if ssts.len() > 0 {
        let rest = ssts.drop_last();
        assert forall|j: int| 0 <= j < rest.len() implies (#[trigger] rest[j]).compaction_group_id
            == g by {
            assert(rest[j] == ssts[j]);
        }
        lemma_filter_all(rest, g);
        assert(ssts.last() == ssts[ssts.len() - 1]);
        assert(rest.push(ssts.last()) =~= ssts);
    }
}

/// Files that are all for group `h` fail the test for another group.
pub proof fn lemma_filter_none(
    ssts: Seq<ExtendedSstableInfo>,
    h: CompactionGroupId,
    g: CompactionGroupId,
)
    requires
        h != g,
        forall|j: int| 0 <= j < ssts.len() ==> (#[trigger] ssts[j]).compaction_group_id == h,
    ensures
        ssts.filter(in_group(g)) == Seq::<ExtendedSstableInfo>::empty(),
    decreases ssts.len(),
{
    reveal(Seq::filter);
    if ssts.len() > 0 {
        let rest = ssts.drop_last();
        assert forall|j: int| 0 <= j < rest.len() implies (#[trigger] rest[j]).compaction_group_id
            == h by {
            assert(rest[j] == ssts[j]);
        }
        lemma_filter_none(rest, h, g);
        assert(ssts.last() == ssts[ssts.len() - 1]);
    }
}

/// A table file with the group that it is to enter.
pub type GroupedSst = (CompactionGroupId, SstableInfoView);

/// The files of a vector, each with its group.
pub open spec fn pairs_view(ssts: Seq<ExtendedSstableInfo>) -> Seq<GroupedSst> {
    ssts.map_values(|e: ExtendedSstableInfo| (e.compaction_group_id, e.sst_info@))
}

/// The test "the file is to enter group `g`".
pub open spec fn pair_in_group(g: CompactionGroupId) -> spec_fn(GroupedSst) -> bool {
    |p: GroupedSst| p.0 == g
}

/// The files among `pairs` that are to enter group `g`, in their order.
pub open spec fn ssts_for(pairs: Seq<GroupedSst>, g: CompactionGroupId) -> Seq<SstableInfoView> {
    pairs.filter(pair_in_group(g)).map_values(|p: GroupedSst| p.1)
}

/// The one change that a commit at `epoch` makes to group `g`: the files
/// `ssts` enter level 0 as a new sub-level `epoch`.
pub open spec fn commit_group_delta(epoch: u64, ssts: Seq<SstableInfoView>) -> Seq<GroupDeltaView> {
    seq![
        GroupDeltaView {
            delta_type: Some(
                DeltaTypeView::IntraLevel(
                    IntraLevelDeltaView {
                        level_idx: 0,
                        l0_sub_level_id: epoch,
                        removed_table_ids: Seq::empty(),
                        inserted_table_infos: ssts,
                    },
                ),
            ),
        },
    ]
}

/// The changes that a commit of the files `pairs` at `epoch` makes to the
/// groups: for each group that a file is to enter, one change by which
/// its files enter level 0, in the order in which they came.
pub open spec fn commit_group_deltas(pairs: Seq<GroupedSst>, epoch: u64) -> Map<
    CompactionGroupId,
    Seq<GroupDeltaView>,
> {
    Map::new(
        |g: CompactionGroupId| exists|i: int| 0 <= i < pairs.len() && (#[trigger] pairs[i]).0 == g,
        |g: CompactionGroupId| commit_group_delta(epoch, ssts_for(pairs, g)),
    )
}

/// The groups that the files `pairs` are to enter.
pub open spec fn groups_of_pairs(pairs: Seq<GroupedSst>) -> Set<CompactionGroupId> {
    Set::new(|g: CompactionGroupId| exists|i: int| 0 <= i < pairs.len() && (#[trigger] pairs[i]).0 == g)
}

/// Taking the files for a group and pairing them with their group can be
/// done in either order.
pub proof fn lemma_pairs_filter(ssts: Seq<ExtendedSstableInfo>, g: CompactionGroupId)
    ensures
        pairs_view(ssts.filter(in_group(g))) == pairs_view(ssts).filter(pair_in_group(g)),
    decreases ssts.len(),
{
    reveal(Seq::filter);
    if ssts.len() == 0 {
        assert(pairs_view(ssts.filter(in_group(g))) =~= pairs_view(ssts).filter(pair_in_group(g)));
    } else {
        let rest = ssts.drop_last();
        lemma_pairs_filter(rest, g);
        assert(pairs_view(ssts).drop_last() =~= pairs_view(rest));
        assert(pairs_view(ssts).last() == (
            ssts.last().compaction_group_id,
            ssts.last().sst_info@,
        ));
        if ssts.last().compaction_group_id == g {
            assert(pairs_view(rest.filter(in_group(g)).push(ssts.last())) =~= pairs_view(
                rest.filter(in_group(g)),
            ).push(pairs_view(ssts).last()));
        }
    }
}

/// A file is among those for its group.
pub proof fn lemma_filter_has(ssts: Seq<ExtendedSstableInfo>, i: int)
    requires
        0 <= i < ssts.len(),
    ensures
        ssts.filter(in_group(ssts[i].compaction_group_id)).len() > 0,
{
    let g = ssts[i].compaction_group_id;
    ssts.lemma_filter_contains(in_group(g), i);
}

/// The files of a run, without their groups and statistics.
fn sst_infos_of(group: Vec<ExtendedSstableInfo>) -> (r: Vec<SstableInfo>)
    ensures
        ssts_view(r@) == pairs_view(group@).map_values(|p: GroupedSst| p.1),
{
    let ghost all = pairs_view(group@).map_values(|p: GroupedSst| p.1);
    let mut r: Vec<SstableInfo> = Vec::new();
    proof {
        assert(ssts_view(r@) =~= all.take(0));
    }
    for sst in it: group
        invariant
            it.seq() == group@,
            all == pairs_view(group@).map_values(|p: GroupedSst| p.1),
            ssts_view(r@) == all.take(it.index() as int),
    {
        let ghost held = ssts_view(r@);
        r.push(sst.sst_info);
        proof {
            let k = it.index() as int;
            assert(ssts_view(r@) =~= held.push(sst.sst_info@));
            assert(held.push(sst.sst_info@) =~= all.take(k + 1));
        }
    }
    proof {
        assert(all.take(all.len() as int) =~= all);
    }
    r
}

/// The changes that a commit of `sstables` at `epoch` makes to the
/// groups, and the groups that it changes, in ascending order.
pub fn build_commit_group_deltas(sstables: Vec<ExtendedSstableInfo>, epoch: u64) -> (r: (
    HashMap<CompactionGroupId, GroupDeltas>,
    Vec<CompactionGroupId>,
))
    ensures
        crate::version::group_deltas_map_view(r.0@) == commit_group_deltas(
            pairs_view(sstables@),
            epoch,
        ),
        r.1@.to_set() == groups_of_pairs(pairs_view(sstables@)),
        forall|i: int, j: int| 0 <= i < j < r.1@.len() ==> r.1@[i] < r.1@[j],
{
    broadcast use vstd::std_specs::hash::group_hash_axioms;

    let ghost given = sstables@;
    let ghost pairs = pairs_view(given);
    // the sort is stable sort, and will not change the order within compaction group.
    // Do a sort so that sst in the same compaction group can be consecutive
    let sorted = sorted_by_compaction_group(sstables);
    let ghost ordered = sorted@;
    let groups = grouped_by_compaction_group(sorted);
    let ghost runs = groups@;
    proof {
        lemma_run_groups_increase(runs);
    }
    let mut group_deltas: HashMap<CompactionGroupId, GroupDeltas> = HashMap::new();
    let mut modified_compaction_groups: Vec<CompactionGroupId> = Vec::new();
    for entry in it: groups
        invariant
            it.seq() == runs,
            pairs == pairs_view(given),
            flattened(runs) == ordered,
            runs_by_group(runs),
            same_files_per_group(given, ordered),
            forall|i: int, j: int|
                0 <= i < j < runs.len() ==> (#[trigger] runs[i]).0 < (#[trigger] runs[j]).0,
            modified_compaction_groups@.len() == it.index(),
            forall|i: int|
                0 <= i < it.index() ==> #[trigger] modified_compaction_groups@[i] == runs[i].0,
            forall|g: CompactionGroupId|
                group_deltas@.contains_key(g) <==> exists|i: int|
                    0 <= i < it.index() && (#[trigger] runs[i]).0 == g,
            forall|g: CompactionGroupId| #[trigger]
                group_deltas@.contains_key(g) ==> group_deltas@[g]@ == commit_group_delta(
                    epoch,
                    ssts_for(pairs, g),
                ),
    {
        let (compaction_group_id, sstables) = entry;
        let ghost k = it.index() as int;
        proof {
            assert(runs[k] == (compaction_group_id, sstables));
            lemma_run_is_filter(runs, compaction_group_id);
            assert(ordered.filter(in_group(compaction_group_id)) == sstables@);
            assert(given.filter(in_group(compaction_group_id)) == ordered.filter(
                in_group(compaction_group_id),
            ));
            lemma_pairs_filter(given, compaction_group_id);
            if group_deltas@.contains_key(compaction_group_id) {
                let i = choose|i: int| 0 <= i < k && (#[trigger] runs[i]).0 == compaction_group_id;
                assert(runs[i].0 < runs[k].0);
            }
        }
        modified_compaction_groups.push(compaction_group_id);
        let group_sstables = sst_infos_of(sstables);
        let mut deltas = match group_deltas.remove(&compaction_group_id) {
            Some(deltas) => deltas,
            None => GroupDeltas::default(),
        };
        let l0_sub_level_id = epoch;
        let removed_table_ids: Vec<u64> = Vec::new();
        let group_delta = GroupDelta {
            delta_type: Some(
                DeltaType::IntraLevel(
                    IntraLevelDelta {
                        level_idx: 0,
                        inserted_table_infos: clone_ssts(&group_sstables),
                        l0_sub_level_id,
                        removed_table_ids,
                    },
                ),
            ),
        };
        let ghost held = deltas@;
        deltas.group_deltas.push(group_delta);
        proof {
            assert(held =~= Seq::empty());
            assert(group_delta@.delta_type->0->IntraLevel_0.removed_table_ids =~= Seq::empty());
            assert(deltas@ =~= commit_group_delta(epoch, ssts_for(pairs, compaction_group_id)));
        }
        group_deltas.insert(compaction_group_id, deltas);
    }
    proof {
        let goal = commit_group_deltas(pairs, epoch);
        let view = crate::version::group_deltas_map_view(group_deltas@);
        assert forall|g: CompactionGroupId| view.contains_key(g) == goal.contains_key(g) by {
            if view.contains_key(g) {
                let i = choose|i: int| 0 <= i < runs.len() && (#[trigger] runs[i]).0 == g;
                lemma_run_is_filter(runs, g);
                assert(ordered.filter(in_group(g)) == runs[i].1@);
                assert(given.filter(in_group(g)) == ordered.filter(in_group(g)));
                assert(given.filter(in_group(g)).len() > 0);
                let e = given.filter(in_group(g))[0];
                given.lemma_filter_pred(in_group(g), 0);
                given.lemma_filter_contains_rev(in_group(g), e);
                let idx = given.index_of(e);
                assert(pairs[idx].0 == g);
            }
            if goal.contains_key(g) {
                let idx = choose|idx: int| 0 <= idx < pairs.len() && (#[trigger] pairs[idx]).0 == g;
                assert(given[idx].compaction_group_id == g);
                lemma_filter_has(given, idx);
                assert(given.filter(in_group(g)) == ordered.filter(in_group(g)));
                lemma_run_is_filter(runs, g);
                if forall|i: int| 0 <= i < runs.len() ==> (#[trigger] runs[i]).0 != g {
                    assert(false);
                }
            }
        }
        assert(view =~= goal);
        assert forall|g: CompactionGroupId|
            modified_compaction_groups@.to_set().contains(g) == groups_of_pairs(pairs).contains(
                g,
            ) by {
            if modified_compaction_groups@.contains(g) {
                let i = choose|i: int|
                    0 <= i < modified_compaction_groups@.len() && modified_compaction_groups@[i]
                        == g;
                assert(runs[i].0 == g);
                assert(view.contains_key(g));
            }
            if groups_of_pairs(pairs).contains(g) {
                assert(goal.contains_key(g));
                let i = choose|i: int| 0 <= i < runs.len() && (#[trigger] runs[i]).0 == g;
                assert(modified_compaction_groups@[i] == g);
            }
        }
        assert(modified_compaction_groups@.to_set() =~= groups_of_pairs(pairs));
        assert forall|i: int, j: int|
            0 <= i < j < modified_compaction_groups@.len() implies modified_compaction_groups@[i]
            < modified_compaction_groups@[j] by {
            assert(runs[i].0 < runs[j].0);
        }
    }
    (group_deltas, modified_compaction_groups)
}

} // verus!
