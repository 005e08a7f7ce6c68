//! The commit of an epoch: new table files enter the store, and a new
//! version with them becomes the current one.

use vstd::prelude::*;
use vstd::std_specs::iter::IteratorSpec;
use std::collections::{BTreeMap, HashMap, HashSet, VecDeque};
use crate::change_log::{ChangeLogDelta, ChangeLogDeltaView, TableWatermarks, TableWatermarksView};
use crate::epoch::HummockEpoch;
use crate::key::TableId;
use crate::levels::HummockSstableObjectId;
use crate::sst_grouping::{
    build_commit_group_deltas, commit_group_deltas, extended_view, groups_of_pairs,
    ExtendedSstableInfo, ExtendedSstableInfoView, GroupedSst,
};
use crate::sst_regroup::{count_new_sst_ids, regroup_sstables, regrouped, total_ids_needed};
use crate::state_table_info::{CompactionGroupId, StateTableInfo, StateTableInfoDelta};
use crate::table_stats::{
    add_prost_table_stats_map, purge_prost_table_stats, stats_plus, HummockVersionStats, TableStats,
    TableStatsMap,
};
use crate::version::{
    change_log_delta_map_view, watermarks_map_view, HummockVersion, HummockVersionDelta,
    HummockVersionDeltaView, HummockVersionId, HummockVersionView, StaticCompactionGroupId,
};

verus! {

/// Identifies a worker that writes table files.
pub type HummockContextId = u32;

/// Why a commit was turned down. The store is as it was.
#[derive(Debug, Clone, Copy, PartialEq, Eq, Structural)]
pub enum Error {
    /// The epoch to commit is not later than the committed epoch.
    EpochNotAfterCommitted { epoch: HummockEpoch, max_committed_epoch: HummockEpoch },
    /// The worker that wrote this table file is not known.
    InvalidSst(HummockSstableObjectId),
    /// A table that the commit registers is recorded already.
    CompactionGroup(TableId),
    /// The new version could not be stored.
    MetaStore,
}

/// What a `NewTableFragmentInfo` stands for.
pub struct NewTableFragmentInfoView {
    pub table_id: TableId,
    pub mv_table_id: Option<TableId>,
    pub internal_table_ids: Seq<TableId>,
}

/// The tables that a commit registers.
#[derive(Debug, PartialEq, Eq)]
pub struct NewTableFragmentInfo {
    pub table_id: TableId,
    /// The table of a materialized view.
    pub mv_table_id: Option<TableId>,
    /// The tables that keep the state of operators.
    pub internal_table_ids: Vec<TableId>,
}

impl View for NewTableFragmentInfo {
    type V = NewTableFragmentInfoView;

    open spec fn view(&self) -> NewTableFragmentInfoView {
        NewTableFragmentInfoView {
            table_id: self.table_id,
            mv_table_id: self.mv_table_id,
            internal_table_ids: self.internal_table_ids@,
        }
    }
}

/// What a `CommitEpochInfo` stands for.
pub struct CommitEpochInfoView {
    pub sstables: Seq<ExtendedSstableInfoView>,
    pub new_table_watermarks: Map<TableId, TableWatermarksView>,
    pub sst_to_context: Map<HummockSstableObjectId, HummockContextId>,
    pub new_table_fragment_info: Option<NewTableFragmentInfoView>,
    pub change_log_delta: Map<TableId, ChangeLogDeltaView>,
    pub table_committed_epoch: Map<HummockEpoch, Set<TableId>>,
    pub max_committed_epoch: HummockEpoch,
}

/// What is handed in to commit an epoch.
#[derive(Debug)]
pub struct CommitEpochInfo {
    pub sstables: Vec<ExtendedSstableInfo>,
    pub new_table_watermarks: HashMap<TableId, TableWatermarks>,
    pub sst_to_context: HashMap<HummockSstableObjectId, HummockContextId>,
    pub new_table_fragment_info: Option<NewTableFragmentInfo>,
    pub change_log_delta: HashMap<TableId, ChangeLogDelta>,
    /// For each epoch the tables that are committed at it.
    pub table_committed_epoch: BTreeMap<HummockEpoch, HashSet<TableId>>,
    /// The epoch to commit.
    pub max_committed_epoch: HummockEpoch,
}

impl View for CommitEpochInfo {
    type V = CommitEpochInfoView;

    open spec fn view(&self) -> CommitEpochInfoView {
        CommitEpochInfoView {
            sstables: extended_view(self.sstables@),
            new_table_watermarks: watermarks_map_view(self.new_table_watermarks@),
            sst_to_context: self.sst_to_context@,
            new_table_fragment_info: match self.new_table_fragment_info {
                Some(f) => Some(f@),
                None => None,
            },
            change_log_delta: change_log_delta_map_view(self.change_log_delta@),
            table_committed_epoch: self.table_committed_epoch@.map_values(
                |s: HashSet<TableId>| s@,
            ),
            max_committed_epoch: self.max_committed_epoch,
        }
    }
}

impl CommitEpochInfo {
    pub fn new(
        sstables: Vec<ExtendedSstableInfo>,
        new_table_watermarks: HashMap<TableId, TableWatermarks>,
        sst_to_context: HashMap<HummockSstableObjectId, HummockContextId>,
        new_table_fragment_info: Option<NewTableFragmentInfo>,
        change_log_delta: HashMap<TableId, ChangeLogDelta>,
        table_committed_epoch: BTreeMap<HummockEpoch, HashSet<TableId>>,
        max_committed_epoch: HummockEpoch,
    ) -> (r: Self)
        ensures
            r.sstables == sstables,
            r.new_table_watermarks == new_table_watermarks,
            r.sst_to_context == sst_to_context,
            r.new_table_fragment_info == new_table_fragment_info,
            r.change_log_delta == change_log_delta,
            r.table_committed_epoch == table_committed_epoch,
            r.max_committed_epoch == max_committed_epoch,
    {
        Self {
            sstables,
            new_table_watermarks,
            sst_to_context,
            new_table_fragment_info,
            change_log_delta,
            table_committed_epoch,
            max_committed_epoch,
        }
    }
}

/// The epochs up to which the store is committed, as readers see them.
#[derive(Debug, Clone, Copy, PartialEq, Eq, Structural)]
pub struct HummockSnapshot {
    pub committed_epoch: HummockEpoch,
    pub current_epoch: HummockEpoch,
}

/// The groups of the tables that a commit registers: the default group
/// for the tables that keep the state of operators, the group of
/// materialized views for the table of a materialized view.
pub open spec fn new_table_groups(info: Option<NewTableFragmentInfoView>) -> Map<
    TableId,
    CompactionGroupId,
> {
    match info {
        None => Map::empty(),
        Some(f) => {
            let internal = Map::new(
                |t: TableId| f.internal_table_ids.contains(t),
                |t: TableId| StaticCompactionGroupId::StateDefault.id_spec(),
            );
            match f.mv_table_id {
                Some(mv) => internal.insert(
                    mv,
                    StaticCompactionGroupId::MaterializedView.id_spec(),
                ),
                None => internal,
            }
        },
    }
}

/// The index of the first of `table_ids` that `info` records; their
/// number where it records none.
pub open spec fn first_recorded(
    info: Map<TableId, StateTableInfo>,
    table_ids: Seq<TableId>,
) -> int
    decreases table_ids.len(),
{
    if table_ids.len() == 0 || info.contains_key(table_ids[0]) {
        0
    } else {
        1 + first_recorded(info, table_ids.drop_first())
    }
}

/// The first table that a commit registers though `info` records it
/// already: the tables that keep the state of operators come first, in
/// their order.
pub open spec fn recorded_new_table(
    info: Map<TableId, StateTableInfo>,
    new_tables: Option<NewTableFragmentInfoView>,
) -> Option<TableId> {
    match new_tables {
        None => None,
        Some(f) => {
            let i = first_recorded(info, f.internal_table_ids);
            if i < f.internal_table_ids.len() {
                Some(f.internal_table_ids[i])
            } else {
                match f.mv_table_id {
                    Some(mv) => if info.contains_key(mv) {
                        Some(mv)
                    } else {
                        None
                    },
                    None => None,
                }
            }
        },
    }
}

/// The group of each table: that of a table which the commit registers,
/// and for the others the one that `info` records.
pub open spec fn table_groups(
    info: Map<TableId, StateTableInfo>,
    new_tables: Map<TableId, CompactionGroupId>,
) -> Map<TableId, CompactionGroupId> {
    Map::new(
        |t: TableId| info.contains_key(t) || new_tables.contains_key(t),
        |t: TableId|
            if new_tables.contains_key(t) {
                new_tables[t]
            } else {
                info[t].compaction_group_id
            },
    )
}

/// What a commit at `epoch` records of the tables: every recorded table
/// is committed at `epoch`; a table that the commit registers is
/// committed and readable from `epoch` on.
pub open spec fn commit_info_delta(
    info: Map<TableId, StateTableInfo>,
    new_tables: Map<TableId, CompactionGroupId>,
    epoch: HummockEpoch,
) -> Map<TableId, StateTableInfoDelta> {
    Map::new(
        |t: TableId| info.contains_key(t) || new_tables.contains_key(t),
        |t: TableId|
            if info.contains_key(t) {
                StateTableInfoDelta {
                    committed_epoch: epoch,
                    safe_epoch: info[t].safe_epoch,
                    compaction_group_id: info[t].compaction_group_id,
                }
            } else {
                StateTableInfoDelta {
                    committed_epoch: epoch,
                    safe_epoch: epoch,
                    compaction_group_id: new_tables[t],
                }
            },
    )
}

/// The table files of a commit as they enter the store, each with its
/// group.
pub open spec fn commit_ssts(
    v: HummockVersionView,
    info: CommitEpochInfoView,
    new_sst_id: u64,
) -> Seq<GroupedSst> {
    regrouped(
        info.sstables,
        table_groups(v.state_table_info, new_table_groups(info.new_table_fragment_info)),
        v.levels.dom(),
        new_sst_id as int,
    )
}

/// The delta that a commit makes: it follows the version, takes the
/// committed epoch to the epoch of the commit, lets the table files enter
/// level 0 of their groups, and records the tables.
pub open spec fn commit_delta(
    v: HummockVersionView,
    info: CommitEpochInfoView,
    new_sst_id: u64,
) -> HummockVersionDeltaView {
    HummockVersionDeltaView {
        id: (v.id + 1) as HummockVersionId,
        prev_id: v.id,
        group_deltas: commit_group_deltas(
            commit_ssts(v, info, new_sst_id),
            info.max_committed_epoch,
        ),
        max_committed_epoch: info.max_committed_epoch,
        safe_epoch: v.safe_epoch,
        trivial_move: false,
        new_table_watermarks: info.new_table_watermarks,
        removed_table_ids: Set::empty(),
        change_log_delta: info.change_log_delta,
        state_table_info_delta: commit_info_delta(
            v.state_table_info,
            new_table_groups(info.new_table_fragment_info),
            info.max_committed_epoch,
        ),
    }
}

/// How many fresh ids the commit takes for table files that it splits.
pub open spec fn commit_ids_needed(v: HummockVersionView, info: CommitEpochInfoView) -> nat {
    total_ids_needed(
        info.sstables,
        table_groups(v.state_table_info, new_table_groups(info.new_table_fragment_info)),
        v.levels.dom(),
    )
}

/// The statistics of the tables of the files `ssts`, added up.
pub open spec fn stats_sum(ssts: Seq<ExtendedSstableInfoView>) -> Map<TableId, TableStats>
    decreases ssts.len(),
{
    if ssts.len() == 0 {
        Map::empty()
    } else {
        stats_plus(stats_sum(ssts.drop_last()), ssts.last().table_stats)
    }
}

/// The statistics of the tables of `sstables`, added up.
pub fn aggregate_table_stats(sstables: &Vec<ExtendedSstableInfo>) -> (r: TableStatsMap)
    ensures
        r@ == stats_sum(extended_view(sstables@)),
{
    let ghost all = extended_view(sstables@);
    let mut table_stats_change: TableStatsMap = HashMap::new();
    let mut i: usize = 0;
    proof {
        assert(all.take(0) =~= Seq::empty());
    }
    while i < sstables.len()
        invariant
            i <= sstables.len(),
            all == extended_view(sstables@),
            table_stats_change@ == stats_sum(all.take(i as int)),
        decreases sstables.len() - i,
    {
        proof {
            assert(all.take(i + 1).drop_last() =~= all.take(i as int));
            assert(all.take(i + 1).last() == sstables@[i as int]@);
        }
        add_prost_table_stats_map(&mut table_stats_change, &sstables[i].table_stats);
        i = i + 1;
    }
    proof {
        assert(all.take(sstables.len() as int) =~= all);
    }
    table_stats_change
}

/// The first table of `new_fragment_table_info` that `version` records
/// already, if there is one.
pub fn find_recorded_new_table(
    version: &HummockVersion,
    new_table_fragment_info: &Option<NewTableFragmentInfo>,
) -> (r: Option<TableId>)
    ensures
        r == recorded_new_table(
            version@.state_table_info,
            match new_table_fragment_info {
                Some(f) => Some(f@),
                None => None,
            },
        ),
{
    broadcast use vstd::std_specs::hash::group_hash_axioms;

    match new_table_fragment_info {
        None => None,
        Some(new_fragment_table_info) => {
            let ghost info = version@.state_table_info;
            let ghost ids = new_fragment_table_info.internal_table_ids@;
            let mut i: usize = 0;
            proof {
                assert(ids.skip(0) =~= ids);
            }
            while i < new_fragment_table_info.internal_table_ids.len()
                invariant
                    i <= new_fragment_table_info.internal_table_ids.len(),
                    info == version@.state_table_info,
                    ids == new_fragment_table_info.internal_table_ids@,
                    *new_table_fragment_info == Some(*new_fragment_table_info),
                    first_recorded(info, ids) == i + first_recorded(info, ids.skip(i as int)),
                decreases new_fragment_table_info.internal_table_ids.len() - i,
            {
                let table_id = new_fragment_table_info.internal_table_ids[i];
                proof {
                    assert(ids.skip(i as int)[0] == table_id);
                    assert(ids.skip(i as int).drop_first() =~= ids.skip(i + 1));
                }
                if version.state_table_info.info().contains_key(&table_id) {
                    proof {
                        assert(info.contains_key(table_id));
                        assert(first_recorded(info, ids.skip(i as int)) == 0);
                        assert(ids[i as int] == table_id);
                    }
                    return Some(table_id);
                }
                i = i + 1;
            }
            proof {
                assert(ids.skip(ids.len() as int) =~= Seq::empty());
            }
            match new_fragment_table_info.mv_table_id {
                Some(table_id) => {
                    if version.state_table_info.info().contains_key(&table_id) {
                        Some(table_id)
                    } else {
                        None
                    }
                },
                None => None,
            }
        },
    }
}

/// The groups of the tables that a commit registers.
pub fn new_table_ids_of(new_table_fragment_info: &Option<NewTableFragmentInfo>) -> (r: HashMap<
    TableId,
    CompactionGroupId,
>)
    ensures
        r@ == new_table_groups(
            match new_table_fragment_info {
                Some(f) => Some(f@),
                None => None,
            },
        ),
{
    broadcast use vstd::std_specs::hash::group_hash_axioms;

    let mut new_table_ids: HashMap<TableId, CompactionGroupId> = HashMap::new();
    match new_table_fragment_info {
        None => {
            proof {
                assert(new_table_ids@ =~= Map::empty());
            }
        },
        Some(new_fragment_table_info) => {
            let ghost ids = new_fragment_table_info.internal_table_ids@;
            let mut i: usize = 0;
            proof {
                assert(new_table_ids@ =~= Map::new(
                    |t: TableId| ids.take(0).contains(t),
                    |t: TableId| StaticCompactionGroupId::StateDefault.id_spec(),
                ));
            }
            while i < new_fragment_table_info.internal_table_ids.len()
                invariant
                    i <= new_fragment_table_info.internal_table_ids.len(),
                    ids == new_fragment_table_info.internal_table_ids@,
                    new_table_ids@ == Map::new(
                        |t: TableId| ids.take(i as int).contains(t),
                        |t: TableId| StaticCompactionGroupId::StateDefault.id_spec(),
                    ),
                decreases new_fragment_table_info.internal_table_ids.len() - i,
            {
                new_table_ids.insert(
                    new_fragment_table_info.internal_table_ids[i],
                    StaticCompactionGroupId::StateDefault.id(),
                );
                proof {
                    let a = ids.take(i as int);
                    let b = ids.take(i + 1);
                    assert forall|t: TableId| b.contains(t) == (a.contains(t) || t
                        == ids[i as int]) by {
                        if b.contains(t) {
                            let k = choose|k: int| 0 <= k < b.len() && b[k] == t;
                            if k < i {
                                assert(a[k] == t);
                            }
                        }
                        if a.contains(t) {
                            let k = choose|k: int| 0 <= k < a.len() && a[k] == t;
                            assert(b[k] == t);
                        }
                        if t == ids[i as int] {
                            assert(b[i as int] == t);
                        }
                    }
                    assert(new_table_ids@ =~= Map::new(
                        |t: TableId| b.contains(t),
                        |t: TableId| StaticCompactionGroupId::StateDefault.id_spec(),
                    ));
                }
                i = i + 1;
            }
            proof {
                assert(ids.take(ids.len() as int) =~= ids);
            }
            match new_fragment_table_info.mv_table_id {
                Some(table_id) => {
                    new_table_ids.insert(table_id, StaticCompactionGroupId::MaterializedView.id());
                },
                None => {},
            }
        },
    }
    new_table_ids
}

/// The group of each table: that of a table in `new_table_ids`, and for
/// the others the one that `version` records.
pub fn table_compaction_group_mapping_of(
    version: &HummockVersion,
    new_table_ids: &HashMap<TableId, CompactionGroupId>,
) -> (r: HashMap<TableId, CompactionGroupId>)
    ensures
        r@ == table_groups(version@.state_table_info, new_table_ids@),
{
    broadcast use vstd::std_specs::hash::group_hash_axioms;

    let mut table_compaction_group_mapping = version.state_table_info.build_table_compaction_group_id();
    let ghost mut done: Set<TableId> = Set::empty();
    let iter = new_table_ids.iter();
    let ghost all = iter.remaining();
    proof {
        assert(table_compaction_group_mapping@ =~= table_groups(
            version@.state_table_info,
            new_table_ids@.restrict(done),
        ));
    }
    for entry in it: iter
        invariant
            it.seq() == all,
            forall|i: int|
                0 <= i < all.len() ==> new_table_ids@.contains_key(*(#[trigger] all[i]).0)
                    && new_table_ids@[*all[i].0] == *all[i].1,
            forall|k: TableId| #[trigger]
                new_table_ids@.contains_key(k) ==> all.contains((&k, &new_table_ids@[k])),
            forall|t: TableId|
                done.contains(t) <==> exists|j: int|
                    0 <= j < it.index() && *(#[trigger] all[j]).0 == t,
            table_compaction_group_mapping@ == table_groups(
                version@.state_table_info,
                new_table_ids@.restrict(done),
            ),
    {
        let (table_id, cg_id) = entry;
        proof {
            assert(*all[it.index() as int].0 == *table_id);
        }
        table_compaction_group_mapping.insert(*table_id, *cg_id);
        proof {
            assert(table_compaction_group_mapping@ =~= table_groups(
                version@.state_table_info,
                new_table_ids@.restrict(done.insert(*table_id)),
            ));
            done = done.insert(*table_id);
        }
    }
    proof {
        assert forall|t: TableId| new_table_ids@.contains_key(t) implies done.contains(t) by {
            let j = all.index_of((&t, &new_table_ids@[t]));
            assert(*all[j].0 == t);
        }
        assert(new_table_ids@.restrict(done) =~= new_table_ids@);
    }
    table_compaction_group_mapping
}

/// What a commit at `epoch` records of the tables.
pub fn build_state_table_info_delta(
    version: &HummockVersion,
    new_table_ids: &HashMap<TableId, CompactionGroupId>,
    epoch: HummockEpoch,
) -> (r: HashMap<TableId, StateTableInfoDelta>)
    ensures
        r@ == commit_info_delta(version@.state_table_info, new_table_ids@, epoch),
{
    broadcast use vstd::std_specs::hash::group_hash_axioms;

    let ghost info = version@.state_table_info;
    let ghost none = Map::<TableId, StateTableInfo>::empty();
    let mut delta: HashMap<TableId, StateTableInfoDelta> = HashMap::new();
    let ghost mut done: Set<TableId> = Set::empty();
    let iter = new_table_ids.iter();
    let ghost all = iter.remaining();
    proof {
        assert(delta@ =~= commit_info_delta(none, new_table_ids@.restrict(done), epoch));
    }
    for entry in it: iter
        invariant
            it.seq() == all,
            none == Map::<TableId, StateTableInfo>::empty(),
            forall|i: int|
                0 <= i < all.len() ==> new_table_ids@.contains_key(*(#[trigger] all[i]).0)
                    && new_table_ids@[*all[i].0] == *all[i].1,
            forall|k: TableId| #[trigger]
                new_table_ids@.contains_key(k) ==> all.contains((&k, &new_table_ids@[k])),
            forall|t: TableId|
                done.contains(t) <==> exists|j: int|
                    0 <= j < it.index() && *(#[trigger] all[j]).0 == t,
            delta@ == commit_info_delta(none, new_table_ids@.restrict(done), epoch),
    {
        let (table_id, cg_id) = entry;
        proof {
            assert(*all[it.index() as int].0 == *table_id);
        }
        delta.insert(
            *table_id,
            StateTableInfoDelta {
                committed_epoch: epoch,
                safe_epoch: epoch,
                compaction_group_id: *cg_id,
            },
        );
        proof {
            assert(delta@ =~= commit_info_delta(
                none,
                new_table_ids@.restrict(done.insert(*table_id)),
                epoch,
            ));
            done = done.insert(*table_id);
        }
    }
    proof {
        assert forall|t: TableId| new_table_ids@.contains_key(t) implies done.contains(t) by {
            let j = all.index_of((&t, &new_table_ids@[t]));
            assert(*all[j].0 == t);
        }
        assert(new_table_ids@.restrict(done) =~= new_table_ids@);
    }
    let ghost mut seen: Set<TableId> = Set::empty();
    let info_iter = version.state_table_info.info().iter();
    let ghost recorded = info_iter.remaining();
    proof {
        assert(delta@ =~= commit_info_delta(info.restrict(seen), new_table_ids@, epoch));
    }
    for entry in it: info_iter
        invariant
            it.seq() == recorded,
            info == version@.state_table_info,
            forall|i: int|
                0 <= i < recorded.len() ==> info.contains_key(*(#[trigger] recorded[i]).0)
                    && info[*recorded[i].0] == *recorded[i].1,
            forall|k: TableId| #[trigger]
                info.contains_key(k) ==> recorded.contains((&k, &info[k])),
            forall|t: TableId|
                seen.contains(t) <==> exists|j: int|
                    0 <= j < it.index() && *(#[trigger] recorded[j]).0 == t,
            delta@ == commit_info_delta(info.restrict(seen), new_table_ids@, epoch),
    {
        let (table_id, table_info) = entry;
        proof {
            assert(*recorded[it.index() as int].0 == *table_id);
        }
        delta.insert(
            *table_id,
            StateTableInfoDelta {
                committed_epoch: epoch,
                safe_epoch: table_info.safe_epoch,
                compaction_group_id: table_info.compaction_group_id,
            },
        );
        proof {
            assert(delta@ =~= commit_info_delta(
                info.restrict(seen.insert(*table_id)),
                new_table_ids@,
                epoch,
            ));
            seen = seen.insert(*table_id);
        }
    }
    proof {
        assert forall|t: TableId| info.contains_key(t) implies seen.contains(t) by {
            let j = recorded.index_of((&t, &info[t]));
            assert(*recorded[j].0 == t);
        }
        assert(info.restrict(seen) =~= info);
    }
    delta
}

/// The versions of a store as its manager holds them.
#[derive(Debug)]
pub struct Versioning {
    /// While set, commits are turned away.
    pub disable_commit_epochs: bool,
    pub current_version: HummockVersion,
    /// The deltas that were applied, by their ids.
    pub hummock_version_deltas: BTreeMap<HummockVersionId, HummockVersionDelta>,
    pub version_stats: HummockVersionStats,
}

/// What a commit has worked out and the store has to keep before the
/// commit takes effect.
#[derive(Debug)]
pub struct CommitPlan {
    /// The version that the commit makes.
    pub version: HummockVersion,
    /// The delta that takes the current version to it.
    pub delta: HummockVersionDelta,
    /// The statistics of the new version.
    pub version_stats: HummockVersionStats,
    /// What readers see once the commit has taken effect.
    pub snapshot: HummockSnapshot,
    /// The groups that table files enter, in ascending order.
    pub modified_compaction_groups: Vec<CompactionGroupId>,
    /// The statistics of the table files of the commit.
    pub table_stats_change: TableStatsMap,
}

/// The part of the manager of a store that decides on commits: it holds
/// the current version and what readers see, and works out each commit.
/// To store a commit and to tell others of it is left to its user.
#[derive(Debug)]
pub struct HummockManager {
    pub versioning: Versioning,
    pub latest_snapshot: HummockSnapshot,
    /// For each table how much was written to it by the latest commits.
    pub history_table_throughput: HashMap<TableId, VecDeque<u64>>,
    /// How many commits `history_table_throughput` keeps for a table.
    pub table_info_statistic_history_times: usize,
}

/// Whether the tables that `info` commits at its epoch are all tables
/// that there are after the commit, and `info` commits at no other epoch.
pub open spec fn single_cohort(v: HummockVersionView, info: CommitEpochInfoView) -> bool {
    &&& info.table_committed_epoch.dom() == set![info.max_committed_epoch]
    &&& info.table_committed_epoch[info.max_committed_epoch] == v.state_table_info.dom().union(
        new_table_groups(info.new_table_fragment_info).dom(),
    )
}

/// Whether the worker that wrote file `sst_id` is not among `valid`.
pub open spec fn written_by_unknown(
    sst_to_context: Map<HummockSstableObjectId, HummockContextId>,
    valid: Set<HummockContextId>,
    sst_id: HummockSstableObjectId,
) -> bool {
    sst_to_context.contains_key(sst_id) && !valid.contains(sst_to_context[sst_id])
}

impl HummockManager {
    /// The current version is one that commits can go on from, every file
    /// of it lies in the group of its tables, and readers see nothing
    /// beyond it.
    pub open spec fn wf(&self) -> bool {
        &&& self.versioning.current_version.wf()
        &&& self.versioning.current_version@.healthy()
        &&& self.versioning.current_version@.ssts_in_member_groups()
        &&& self.latest_snapshot.committed_epoch
            <= self.versioning.current_version@.max_committed_epoch
        &&& self.latest_snapshot.current_epoch
            <= self.versioning.current_version@.max_committed_epoch
    }

    /// A manager of a store that was just made: its first version, and
    /// nothing committed.
    pub fn new(default_compaction_config: &crate::levels::CompactionConfig, table_info_statistic_history_times: usize) -> (r:
        Self)
        requires
            default_compaction_config.max_level < u32::MAX,
        ensures
            r.wf(),
            r.versioning.current_version@ == HummockVersionView::init(*default_compaction_config),
            !r.versioning.disable_commit_epochs,
            r.versioning.hummock_version_deltas@ == Map::<
                HummockVersionId,
                HummockVersionDelta,
            >::empty(),
            r.versioning.version_stats.table_stats@ == Map::<TableId, TableStats>::empty(),
            r.latest_snapshot == (HummockSnapshot { committed_epoch: 0, current_epoch: 0 }),
            r.history_table_throughput@ == Map::<TableId, VecDeque<u64>>::empty(),
            r.table_info_statistic_history_times == table_info_statistic_history_times,
    {
        proof {
            crate::commit_laws::lemma_init_version_healthy(*default_compaction_config);
        }
        let current_version = HummockVersion::create_init_version(default_compaction_config);
        HummockManager {
            versioning: Versioning {
                disable_commit_epochs: false,
                current_version,
                hummock_version_deltas: BTreeMap::new(),
                version_stats: HummockVersionStats {
                    hummock_version_id: 0,
                    table_stats: HashMap::new(),
                },
            },
            latest_snapshot: HummockSnapshot { committed_epoch: 0, current_epoch: 0 },
            history_table_throughput: HashMap::new(),
            table_info_statistic_history_times,
        }
    }

    /// What a commit comes to. A commit is turned away while commits are
    /// disabled. It fails, in this order, if its epoch is not later than
    /// the committed epoch, if a table file was written by a worker that
    /// is not known, or if a table that it registers is recorded already.
    /// Else it makes a plan: the delta of the commit, the version that the
    /// delta makes of the current one, and the statistics of that
    /// version.
    pub open spec fn commit_outcome(
        &self,
        info: CommitEpochInfoView,
        valid: Set<HummockContextId>,
        new_sst_id: u64,
        r: Result<Option<CommitPlan>, Error>,
    ) -> bool {
        let v = self.versioning.current_version@;
        let epoch = info.max_committed_epoch;
        if self.versioning.disable_commit_epochs {
            r matches Ok(None)
        } else if epoch <= v.max_committed_epoch {
            r == Err::<Option<CommitPlan>, Error>(
                Error::EpochNotAfterCommitted {
                    epoch,
                    max_committed_epoch: v.max_committed_epoch,
                },
            )
        } else if exists|sst_id: HummockSstableObjectId|
            written_by_unknown(info.sst_to_context, valid, sst_id) {
            r matches Err(Error::InvalidSst(sst_id)) && written_by_unknown(
                info.sst_to_context,
                valid,
                sst_id,
            )
        } else {
            match recorded_new_table(v.state_table_info, info.new_table_fragment_info) {
                Some(t) => r == Err::<Option<CommitPlan>, Error>(Error::CompactionGroup(t)),
                None => r matches Ok(Some(plan)) && self.plans(info, new_sst_id, plan),
            }
        }
    }

    /// Whether `plan` is what the commit of `info` makes of the current
    /// version.
    pub open spec fn plans(&self, info: CommitEpochInfoView, new_sst_id: u64, plan: CommitPlan) -> bool {
        let v = self.versioning.current_version@;
        let epoch = info.max_committed_epoch;
        &&& plan.delta@ == commit_delta(v, info, new_sst_id)
        &&& plan.version.wf()
        &&& plan.version@ == v.applied(plan.delta@)
        &&& plan.version@.healthy()
        &&& plan.version@.ssts_in_member_groups()
        &&& plan.snapshot == (HummockSnapshot { committed_epoch: epoch, current_epoch: epoch })
        &&& plan.modified_compaction_groups@.to_set() == groups_of_pairs(
            commit_ssts(v, info, new_sst_id),
        )
        &&& forall|i: int, j: int|
            0 <= i < j < plan.modified_compaction_groups@.len()
                ==> plan.modified_compaction_groups@[i] < plan.modified_compaction_groups@[j]
        &&& plan.table_stats_change@ == stats_sum(info.sstables)
        &&& plan.version_stats.hummock_version_id == self.versioning.version_stats.hummock_version_id
        &&& plan.version_stats.table_stats@ == stats_plus(
            self.versioning.version_stats.table_stats@,
            stats_sum(info.sstables),
        ).restrict(plan.version@.state_table_info.dom())
    }

    /// A table file whose writer is not among `valid_context_ids`, if
    /// there is one.
    fn find_sst_of_unknown_writer(
        sst_to_context: &HashMap<HummockSstableObjectId, HummockContextId>,
        valid_context_ids: &HashSet<HummockContextId>,
    ) -> (r: Option<HummockSstableObjectId>)
        ensures
            match r {
                Some(sst_id) => written_by_unknown(sst_to_context@, valid_context_ids@, sst_id),
                None => forall|sst_id: HummockSstableObjectId|
                    !written_by_unknown(sst_to_context@, valid_context_ids@, sst_id),
            },
    {
        broadcast use vstd::std_specs::hash::group_hash_axioms;

        let iter = sst_to_context.iter();
        let ghost all = iter.remaining();
        for entry in it: iter
            invariant
                it.seq() == all,
                forall|i: int|
                    0 <= i < all.len() ==> sst_to_context@.contains_key(*(#[trigger] all[i]).0)
                        && sst_to_context@[*all[i].0] == *all[i].1,
                forall|k: HummockSstableObjectId| #[trigger]
                    sst_to_context@.contains_key(k) ==> all.contains((&k, &sst_to_context@[k])),
                forall|j: int|
                    0 <= j < it.index() ==> valid_context_ids@.contains(*(#[trigger] all[j]).1),
        {
            let (sst_id, context_id) = entry;
            proof {
                assert(*all[it.index() as int].0 == *sst_id);
            }
            if !valid_context_ids.contains(context_id) {
                return Some(*sst_id);
            }
        }
        proof {
            assert forall|sst_id: HummockSstableObjectId|
                !written_by_unknown(sst_to_context@, valid_context_ids@, sst_id) by {
                if sst_to_context@.contains_key(sst_id) {
                    let j = all.index_of((&sst_id, &sst_to_context@[sst_id]));
                    assert(*all[j].1 == sst_to_context@[sst_id]);
                }
            }
        }
        None
    }

    /// How many fresh ids the commit of `commit_info` takes for table
    /// files that it splits; `None` where that is more than a `u64`
    /// holds.
    pub fn new_sst_id_number(&self, commit_info: &CommitEpochInfo) -> (r: Option<u64>)
        ensures
            match r {
                Some(n) => n == commit_ids_needed(self.versioning.current_version@, commit_info@),
                None => commit_ids_needed(self.versioning.current_version@, commit_info@)
                    > u64::MAX,
            },
    {
        let version = &self.versioning.current_version;
        let new_table_ids = new_table_ids_of(&commit_info.new_table_fragment_info);
        let table_compaction_group_mapping = table_compaction_group_mapping_of(
            version,
            &new_table_ids,
        );
        proof {
            assert(version.levels@.dom() =~= version@.levels.dom());
        }
        count_new_sst_ids(&commit_info.sstables, &version.levels, &table_compaction_group_mapping)
    }

    /// Works out the commit of an epoch. The store is not changed: what
    /// comes back on success is the plan of the commit, which takes effect
    /// by `finish_commit` once it is stored. The fresh ids for table files
    /// that the commit splits are taken from `new_sst_id` on.
    pub fn commit_epoch(
        &self,
        commit_info: CommitEpochInfo,
        valid_context_ids: &HashSet<HummockContextId>,
        new_sst_id: u64,
    ) -> (r: Result<Option<CommitPlan>, Error>)
        requires
            self.wf(),
            self.versioning.current_version.id < u64::MAX,
            single_cohort(self.versioning.current_version@, commit_info@),
            new_sst_id + commit_ids_needed(self.versioning.current_version@, commit_info@)
                <= u64::MAX,
        ensures
            self.commit_outcome(commit_info@, valid_context_ids@, new_sst_id, r),
    {
        let ghost info = commit_info@;
        let CommitEpochInfo {
            sstables,
            new_table_watermarks,
            sst_to_context,
            new_table_fragment_info,
            change_log_delta,
            table_committed_epoch: _,
            max_committed_epoch: epoch,
        } = commit_info;
        // Prevent commit new epochs if this flag is set
        if self.versioning.disable_commit_epochs {
            return Ok(None);
        }
        let version = &self.versioning.current_version;
        if epoch <= version.max_committed_epoch {
            return Err(
                Error::EpochNotAfterCommitted {
                    epoch,
                    max_committed_epoch: version.max_committed_epoch,
                },
            );
        }
        match Self::find_sst_of_unknown_writer(&sst_to_context, valid_context_ids) {
            Some(sst_id) => {
                return Err(Error::InvalidSst(sst_id));
            },
            None => {},
        }
        // Consume and aggregate table stats.
        let table_stats_change = aggregate_table_stats(&sstables);
        let mut new_version_delta = version.version_delta_after();
        new_version_delta.max_committed_epoch = epoch;
        new_version_delta.new_table_watermarks = new_table_watermarks;
        new_version_delta.change_log_delta = change_log_delta;
        // Add new table
        match find_recorded_new_table(version, &new_table_fragment_info) {
            Some(table_id) => {
                return Err(Error::CompactionGroup(table_id));
            },
            None => {},
        }
        let new_table_ids = new_table_ids_of(&new_table_fragment_info);
        let table_compaction_group_mapping = table_compaction_group_mapping_of(
            version,
            &new_table_ids,
        );
        proof {
            assert(version.levels@.dom() =~= version@.levels.dom());
        }
        let sstables = regroup_sstables(
            sstables,
            &version.levels,
            &table_compaction_group_mapping,
            new_sst_id,
        );
        // Append SSTs to a new version.
        let (group_deltas, modified_compaction_groups) = build_commit_group_deltas(sstables, epoch);
        new_version_delta.group_deltas = group_deltas;
        // update state table info
        new_version_delta.state_table_info_delta = build_state_table_info_delta(
            version,
            &new_table_ids,
            epoch,
        );
        proof {
            assert(new_version_delta@.removed_table_ids =~= Set::empty());
            assert(new_version_delta@ == commit_delta(version@, info, new_sst_id));
            crate::commit_laws::lemma_commit_delta_applies(version@, info, new_sst_id);
        }
        let mut new_version = version.clone();
        new_version.apply_version_delta(&new_version_delta);
        // Apply stats changes.
        let mut version_stats = self.versioning.version_stats.clone();
        add_prost_table_stats_map(&mut version_stats.table_stats, &table_stats_change);
        purge_prost_table_stats(&mut version_stats.table_stats, &new_version);
        let snapshot = HummockSnapshot { committed_epoch: epoch, current_epoch: epoch };
        Ok(
            Some(
                CommitPlan {
                    version: new_version,
                    delta: new_version_delta,
                    version_stats,
                    snapshot,
                    modified_compaction_groups,
                    table_stats_change,
                },
            ),
        )
    }

    /// Lets a commit take effect, or drops it. Where the plan of the
    /// commit was stored, the version of the plan becomes the current
    /// one, and readers see its epoch. Where it could not be stored, the
    /// commit fails and nothing is changed.
    pub fn finish_commit(&mut self, plan: CommitPlan, persisted: bool) -> (r: Result<
        HummockSnapshot,
        Error,
    >)
        requires
            old(self).wf(),
            plan.version.wf(),
            plan.version@.healthy(),
            plan.version@.ssts_in_member_groups(),
            plan.version@.max_committed_epoch > old(self).versioning.current_version@.max_committed_epoch,
            plan.snapshot == (HummockSnapshot {
                committed_epoch: plan.version@.max_committed_epoch,
                current_epoch: plan.version@.max_committed_epoch,
            }),
        ensures
            !persisted ==> r == Err::<HummockSnapshot, Error>(Error::MetaStore) && *final(self)
                == *old(self),
            persisted ==> {
                &&& r == Ok::<HummockSnapshot, Error>(plan.snapshot)
                &&& final(self).wf()
                &&& final(self).versioning.current_version == plan.version
                &&& final(self).versioning.version_stats == plan.version_stats
                &&& final(self).versioning.hummock_version_deltas@ == old(
                    self,
                ).versioning.hummock_version_deltas@.insert(plan.delta.id, plan.delta)
                &&& final(self).versioning.disable_commit_epochs == old(
                    self,
                ).versioning.disable_commit_epochs
                &&& final(self).latest_snapshot == plan.snapshot
                &&& final(self).latest_snapshot.committed_epoch > old(
                    self,
                ).latest_snapshot.committed_epoch
                &&& final(self).latest_snapshot.current_epoch > old(
                    self,
                ).latest_snapshot.current_epoch
                &&& final(self).history_table_throughput == old(self).history_table_throughput
                &&& final(self).table_info_statistic_history_times == old(
                    self,
                ).table_info_statistic_history_times
            },
    {
        broadcast use vstd::std_specs::btree::group_btree_axioms;

        if !persisted {
            return Err(Error::MetaStore);
        }
        let CommitPlan {
            version,
            delta,
            version_stats,
            snapshot,
            modified_compaction_groups: _,
            table_stats_change: _,
        } = plan;
        self.versioning.current_version = version;
        self.versioning.hummock_version_deltas.insert(delta.id, delta);
        self.versioning.version_stats = version_stats;
        self.latest_snapshot = snapshot;
        Ok(snapshot)
    }
}

/// What a table's statistics count as written: the sizes of its keys and
/// values, added up; both the sum and its reading as a `u64` wrap around.
pub open spec fn throughput_of(stat: TableStats) -> u64 {
    stat.total_value_size.wrapping_add(stat.total_key_size) as u64
}

/// A history with `throughput` as its newest entry, and without its
/// oldest where it would else hold more than `limit` entries.
pub open spec fn with_throughput(history: Seq<u64>, throughput: u64, limit: usize) -> Seq<u64> {
    let longer = history.push(throughput);
    if longer.len() > limit {
        longer.subrange(1, longer.len() as int)
    } else {
        longer
    }
}

/// The histories of a map, each by its view.
pub open spec fn history_view(history: Map<TableId, VecDeque<u64>>) -> Map<TableId, Seq<u64>> {
    history.map_values(|h: VecDeque<u64>| h@)
}

/// The histories after the tables of `table_stats` were written to.
pub open spec fn with_throughputs(
    history: Map<TableId, Seq<u64>>,
    table_stats: Map<TableId, TableStats>,
    limit: usize,
) -> Map<TableId, Seq<u64>> {
    Map::new(
        |t: TableId| history.contains_key(t) || table_stats.contains_key(t),
        |t: TableId|
            if table_stats.contains_key(t) {
                with_throughput(
                    if history.contains_key(t) {
                        history[t]
                    } else {
                        Seq::empty()
                    },
                    throughput_of(table_stats[t]),
                    limit,
                )
            } else {
                history[t]
            },
    )
}

/// The commit of all tables of a version at `epoch` with the files
/// `sstables`: it registers no table and brings no watermark and no
/// change log.
pub open spec fn commit_of_all_tables(
    v: HummockVersionView,
    sstables: Seq<ExtendedSstableInfoView>,
    sst_to_context: Map<HummockSstableObjectId, HummockContextId>,
    epoch: HummockEpoch,
) -> CommitEpochInfoView {
    CommitEpochInfoView {
        sstables,
        new_table_watermarks: Map::empty(),
        sst_to_context,
        new_table_fragment_info: None,
        change_log_delta: Map::empty(),
        table_committed_epoch: Map::empty().insert(epoch, v.state_table_info.dom()),
        max_committed_epoch: epoch,
    }
}

impl HummockManager {
    /// The tables that the current version records.
    fn current_tables(&self) -> (r: HashSet<TableId>)
        ensures
            r@ == self.versioning.current_version@.state_table_info.dom(),
    {
        broadcast use vstd::std_specs::hash::group_hash_axioms;

        let info = self.versioning.current_version.state_table_info.info();
        let mut tables: HashSet<TableId> = HashSet::new();
        let iter = info.iter();
        let ghost all = iter.remaining();
        for entry in it: iter
            invariant
                it.seq() == all,
                forall|i: int| 0 <= i < all.len() ==> info@.contains_key(*(#[trigger] all[i]).0),
                forall|k: TableId| #[trigger]
                    info@.contains_key(k) ==> all.contains((&k, &info@[k])),
                forall|t: TableId|
                    tables@.contains(t) <==> exists|j: int|
                        0 <= j < it.index() && *(#[trigger] all[j]).0 == t,
        {
            let (table_id, _info) = entry;
            proof {
                assert(*all[it.index() as int].0 == *table_id);
            }
            tables.insert(*table_id);
        }
        proof {
            assert forall|t: TableId| info@.contains_key(t) implies tables@.contains(t) by {
                let j = all.index_of((&t, &info@[t]));
                assert(*all[j].0 == t);
            }
            assert(tables@ =~= info@.dom());
        }
        tables
    }

    /// Whether `commit_info` commits, at its epoch and at no other, the
    /// tables that there are after the commit.
    pub fn commits_single_cohort(&self, commit_info: &CommitEpochInfo) -> (r: bool)
        ensures
            r == single_cohort(self.versioning.current_version@, commit_info@),
    {
        broadcast use vstd::std_specs::hash::group_hash_axioms;
        broadcast use vstd::std_specs::btree::group_btree_axioms;

        let ghost epochs = commit_info@.table_committed_epoch;
        let ghost raw = commit_info.table_committed_epoch@;
        proof {
            assert(epochs.dom() =~= raw.dom());
            assert(set![commit_info.max_committed_epoch].len() == 1);
        }
        if commit_info.table_committed_epoch.len() != 1 {
            return false;
        }
        let committed = match commit_info.table_committed_epoch.get(
            &commit_info.max_committed_epoch,
        ) {
            Some(tables) => tables,
            None => {
                proof {
                    assert(!epochs.dom().contains(commit_info.max_committed_epoch));
                    assert(set![commit_info.max_committed_epoch].contains(
                        commit_info.max_committed_epoch,
                    ));
                }
                return false;
            },
        };
        proof {
            assert(epochs[commit_info.max_committed_epoch] == committed@);
        }
        let info = self.versioning.current_version.state_table_info.info();
        let new_table_ids = new_table_ids_of(&commit_info.new_table_fragment_info);
        let ghost expected = info@.dom().union(new_table_ids@.dom());
        proof {
            assert(expected == self.versioning.current_version@.state_table_info.dom().union(
                new_table_groups(commit_info@.new_table_fragment_info).dom(),
            ));
        }
        // every table that is committed is expected
        let iter = committed.iter();
        let ghost all = iter.remaining();
        for table_id in it: iter
            invariant
                it.seq() == all,
                all.unref().to_set() == committed@,
                expected == info@.dom().union(new_table_ids@.dom()),
                expected == self.versioning.current_version@.state_table_info.dom().union(
                    new_table_groups(commit_info@.new_table_fragment_info).dom(),
                ),
                epochs == commit_info@.table_committed_epoch,
                epochs.contains_key(commit_info.max_committed_epoch),
                epochs[commit_info.max_committed_epoch] == committed@,
                forall|j: int| 0 <= j < it.index() ==> expected.contains(*(#[trigger] all[j])),
        {
            if !info.contains_key(table_id) && !new_table_ids.contains_key(table_id) {
                proof {
                    let k = it.index() as int;
                    assert(all.unref()[k] == *table_id);
                    assert(all.unref().contains(*table_id));
                    assert(committed@.contains(*table_id));
                    assert(!expected.contains(*table_id));
                }
                return false;
            }
        }
        proof {
            assert forall|t: TableId| committed@.contains(t) implies expected.contains(t) by {
                assert(all.unref().contains(t));
                let j = choose|j: int| 0 <= j < all.unref().len() && all.unref()[j] == t;
                assert(*all[j] == t);
            }
        }
        // every table that is recorded or registered is committed
        let info_iter = info.iter();
        let ghost recorded = info_iter.remaining();
        for entry in it: info_iter
            invariant
                it.seq() == recorded,
                expected == info@.dom().union(new_table_ids@.dom()),
                expected == self.versioning.current_version@.state_table_info.dom().union(
                    new_table_groups(commit_info@.new_table_fragment_info).dom(),
                ),
                epochs == commit_info@.table_committed_epoch,
                epochs.contains_key(commit_info.max_committed_epoch),
                epochs[commit_info.max_committed_epoch] == committed@,
                forall|i: int|
                    0 <= i < recorded.len() ==> info@.contains_key(*(#[trigger] recorded[i]).0),
                forall|k: TableId| #[trigger]
                    info@.contains_key(k) ==> recorded.contains((&k, &info@[k])),
                forall|j: int|
                    0 <= j < it.index() ==> committed@.contains(*(#[trigger] recorded[j]).0),
        {
            let (table_id, _info) = entry;
            proof {
                assert(*recorded[it.index() as int].0 == *table_id);
            }
            if !committed.contains(table_id) {
                proof {
                    assert(expected.contains(*table_id));
                }
                return false;
            }
        }
        proof {
            assert forall|t: TableId| info@.contains_key(t) implies committed@.contains(t) by {
                let j = recorded.index_of((&t, &info@[t]));
                assert(*recorded[j].0 == t);
            }
        }
        let new_iter = new_table_ids.iter();
        let ghost registered = new_iter.remaining();
        for entry in it: new_iter
            invariant
                it.seq() == registered,
                expected == info@.dom().union(new_table_ids@.dom()),
                expected == self.versioning.current_version@.state_table_info.dom().union(
                    new_table_groups(commit_info@.new_table_fragment_info).dom(),
                ),
                epochs == commit_info@.table_committed_epoch,
                epochs.contains_key(commit_info.max_committed_epoch),
                epochs[commit_info.max_committed_epoch] == committed@,
                forall|i: int|
                    0 <= i < registered.len() ==> new_table_ids@.contains_key(
                        *(#[trigger] registered[i]).0,
                    ),
                forall|k: TableId| #[trigger]
                    new_table_ids@.contains_key(k) ==> registered.contains(
                        (&k, &new_table_ids@[k]),
                    ),
                forall|j: int|
                    0 <= j < it.index() ==> committed@.contains(*(#[trigger] registered[j]).0),
        {
            let (table_id, _group) = entry;
            proof {
                assert(*registered[it.index() as int].0 == *table_id);
            }
            if !committed.contains(table_id) {
                proof {
                    assert(expected.contains(*table_id));
                }
                return false;
            }
        }
        proof {
            assert forall|t: TableId| new_table_ids@.contains_key(t) implies committed@.contains(
                t,
            ) by {
                let j = registered.index_of((&t, &new_table_ids@[t]));
                assert(*registered[j].0 == t);
            }
            assert(committed@ =~= expected);
            assert(epochs.dom() =~= raw.dom());
            assert(raw.dom().finite());
            assert(raw.len() == 1);
            assert(epochs.contains_key(commit_info.max_committed_epoch));
            assert(epochs.dom().finite());
            assert(epochs.dom().len() == 1);
            assert(epochs.dom() =~= set![commit_info.max_committed_epoch]) by {
                let e = commit_info.max_committed_epoch;
                assert(epochs.dom().remove(e).len() == 0);
                assert forall|x: HummockEpoch| epochs.dom().contains(x) implies x == e by {
                    if x != e {
                        assert(epochs.dom().remove(e).contains(x));
                        assert(epochs.dom().remove(e).len() > 0) by {
                            vstd::set_lib::lemma_set_empty_equivalency_len(epochs.dom().remove(e));
                        }
                    }
                }
            }
        }
        true
    }

    /// Whether `after` is this manager after the commit of `info`, of
    /// which `new_sst_id` is the first id for the copies of split files,
    /// took effect: the version is what the delta of the commit makes of
    /// the current one, the delta is kept under its id, readers see the
    /// epoch of the commit, and the statistics take in those of the files.
    pub open spec fn committed(
        &self,
        after: HummockManager,
        info: CommitEpochInfoView,
        new_sst_id: u64,
    ) -> bool {
        let v = self.versioning.current_version@;
        let delta = commit_delta(v, info, new_sst_id);
        &&& after.wf()
        &&& after.versioning.current_version@ == v.applied(delta)
        &&& after.latest_snapshot == (HummockSnapshot {
            committed_epoch: info.max_committed_epoch,
            current_epoch: info.max_committed_epoch,
        })
        &&& after.versioning.disable_commit_epochs == self.versioning.disable_commit_epochs
        &&& after.versioning.hummock_version_deltas@.dom()
            == self.versioning.hummock_version_deltas@.dom().insert(delta.id)
        &&& after.versioning.hummock_version_deltas@[delta.id]@ == delta
        &&& forall|id: HummockVersionId|
            id != delta.id && self.versioning.hummock_version_deltas@.contains_key(id)
                ==> after.versioning.hummock_version_deltas@[id]
                == self.versioning.hummock_version_deltas@[id]
        &&& after.versioning.version_stats.hummock_version_id
            == self.versioning.version_stats.hummock_version_id
        &&& after.versioning.version_stats.table_stats@ == stats_plus(
            self.versioning.version_stats.table_stats@,
            stats_sum(info.sstables),
        ).restrict(v.applied(delta).state_table_info.dom())
        &&& after.history_table_throughput == self.history_table_throughput
        &&& after.table_info_statistic_history_times == self.table_info_statistic_history_times
    }

    /// What a commit that registers no table comes to once it was let
    /// take effect, where `after` is the manager afterwards. While
    /// commits are disabled nothing happens. The commit fails, and
    /// nothing changes, if its epoch is not later than the committed
    /// epoch, or else if a table file was written by a worker that is
    /// not known. Else it took effect.
    pub open spec fn commit_for_test_outcome(
        &self,
        after: HummockManager,
        info: CommitEpochInfoView,
        valid: Set<HummockContextId>,
        new_sst_id: u64,
        r: Result<(), Error>,
    ) -> bool {
        let v = self.versioning.current_version@;
        let epoch = info.max_committed_epoch;
        if self.versioning.disable_commit_epochs {
            r is Ok && after == *self
        } else if epoch <= v.max_committed_epoch {
            r == Err::<(), Error>(
                Error::EpochNotAfterCommitted { epoch, max_committed_epoch: v.max_committed_epoch },
            ) && after == *self
        } else if exists|sst_id: HummockSstableObjectId|
            written_by_unknown(info.sst_to_context, valid, sst_id) {
            r matches Err(Error::InvalidSst(sst_id)) && written_by_unknown(
                info.sst_to_context,
                valid,
                sst_id,
            ) && after == *self
        } else {
            r is Ok && self.committed(after, info, new_sst_id)
        }
    }

    /// Commits `epoch` for all tables of the current version with the
    /// files `sstables`, and lets the commit take effect. Does nothing
    /// while commits are disabled.
    pub fn commit_epoch_for_test(
        &mut self,
        epoch: HummockEpoch,
        sstables: Vec<ExtendedSstableInfo>,
        sst_to_context: HashMap<HummockSstableObjectId, HummockContextId>,
        valid_context_ids: &HashSet<HummockContextId>,
        new_sst_id: u64,
    ) -> (r: Result<(), Error>)
        requires
            old(self).wf(),
            old(self).versioning.current_version.id < u64::MAX,
            new_sst_id + commit_ids_needed(
                old(self).versioning.current_version@,
                commit_of_all_tables(
                    old(self).versioning.current_version@,
                    extended_view(sstables@),
                    sst_to_context@,
                    epoch,
                ),
            ) <= u64::MAX,
        ensures
            old(self).commit_for_test_outcome(
                *final(self),
                commit_of_all_tables(
                    old(self).versioning.current_version@,
                    extended_view(sstables@),
                    sst_to_context@,
                    epoch,
                ),
                valid_context_ids@,
                new_sst_id,
                r,
            ),
    {
        broadcast use vstd::std_specs::hash::group_hash_axioms;
        broadcast use vstd::std_specs::btree::group_btree_axioms;

        let ghost contexts = sst_to_context@;
        let tables = self.current_tables();
        let mut table_committed_epoch: BTreeMap<HummockEpoch, HashSet<TableId>> = BTreeMap::new();
        table_committed_epoch.insert(epoch, tables);
        let info = CommitEpochInfo::new(
            sstables,
            HashMap::new(),
            sst_to_context,
            None,
            HashMap::new(),
            table_committed_epoch,
            epoch,
        );
        proof {
            let v = self.versioning.current_version@;
            let goal = commit_of_all_tables(v, extended_view(sstables@), sst_to_context@, epoch);
            assert(info@.new_table_watermarks =~= goal.new_table_watermarks);
            assert(info@.change_log_delta =~= goal.change_log_delta);
            assert(info@.table_committed_epoch =~= goal.table_committed_epoch);
            assert(info@ == goal);
            assert(new_table_groups(info@.new_table_fragment_info).dom() =~= Set::empty());
            assert(info@.table_committed_epoch.dom() =~= set![epoch]);
            assert(v.state_table_info.dom().union(Set::empty()) =~= v.state_table_info.dom());
        }
        let ghost info_view = info@;
        let planned = self.commit_epoch(info, valid_context_ids, new_sst_id);
        proof {
            assert(self.commit_outcome(info_view, valid_context_ids@, new_sst_id, planned));
            assert(recorded_new_table(
                self.versioning.current_version@.state_table_info,
                info_view.new_table_fragment_info,
            ) is None);
            assert(info_view.sst_to_context == contexts);
            if exists|sst_id: HummockSstableObjectId|
                written_by_unknown(contexts, valid_context_ids@, sst_id) {
                let sst_id = choose|sst_id: HummockSstableObjectId|
                    written_by_unknown(contexts, valid_context_ids@, sst_id);
                assert(written_by_unknown(info_view.sst_to_context, valid_context_ids@, sst_id));
            }
        }
        match planned {
            Ok(Some(plan)) => {
                match self.finish_commit(plan, true) {
                    Ok(_snapshot) => Ok(()),
                    Err(e) => Err(e),
                }
            },
            Ok(None) => Ok(()),
            Err(e) => Err(e),
        }
    }

    /// Records for each table of `table_stats` how much was written to
    /// it, and forgets what lies further back than the history keeps.
    pub fn collect_table_write_throughput(&mut self, table_stats: TableStatsMap)
        ensures
            history_view(final(self).history_table_throughput@) == with_throughputs(
                history_view(old(self).history_table_throughput@),
                table_stats@,
                old(self).table_info_statistic_history_times,
            ),
            final(self).versioning == old(self).versioning,
            final(self).latest_snapshot == old(self).latest_snapshot,
            final(self).table_info_statistic_history_times == old(
                self,
            ).table_info_statistic_history_times,
    {
        broadcast use vstd::std_specs::hash::group_hash_axioms;

        let ghost before = history_view(self.history_table_throughput@);
        let ghost limit = self.table_info_statistic_history_times;
        let ghost mut done: Set<TableId> = Set::empty();
        let iter = table_stats.iter();
        let ghost all = iter.remaining();
        proof {
            assert(history_view(self.history_table_throughput@) =~= with_throughputs(
                before,
                table_stats@.restrict(done),
                limit,
            ));
        }
        for entry in it: iter
            invariant
                it.seq() == all,
                all.no_duplicates(),
                limit == self.table_info_statistic_history_times,
                self.versioning == old(self).versioning,
                self.latest_snapshot == old(self).latest_snapshot,
                self.table_info_statistic_history_times == old(
                    self,
                ).table_info_statistic_history_times,
                forall|i: int|
                    0 <= i < all.len() ==> table_stats@.contains_key(*(#[trigger] all[i]).0)
                        && table_stats@[*all[i].0] == *all[i].1,
                forall|k: TableId| #[trigger]
                    table_stats@.contains_key(k) ==> all.contains((&k, &table_stats@[k])),
                forall|t: TableId|
                    done.contains(t) <==> exists|j: int|
                        0 <= j < it.index() && *(#[trigger] all[j]).0 == t,
                history_view(self.history_table_throughput@) == with_throughputs(
                    before,
                    table_stats@.restrict(done),
                    limit,
                ),
        {
            let (table_id, stat) = entry;
            let ghost held = self.history_table_throughput@;
            let ghost held_view = history_view(held);
            proof {
                let k = it.index() as int;
                assert(*all[k].0 == *table_id);
                if done.contains(*table_id) {
                    let j = choose|j: int| 0 <= j < k && *(#[trigger] all[j]).0 == *table_id;
                    assert(all[j] == all[k]);
                }
            }
            let throughput = stat.total_value_size.wrapping_add(stat.total_key_size) as u64;
            let mut history = match self.history_table_throughput.remove(table_id) {
                Some(history) => {
                    proof {
                        assert(held_view[*table_id] == history@);
                    }
                    history
                },
                None => VecDeque::new(),
            };
            history.push_back(throughput);
            if history.len() > self.table_info_statistic_history_times {
                history.pop_front();
            }
            proof {
                assert(history_view(held.remove(*table_id).insert(*table_id, history))
                    =~= held_view.insert(*table_id, history@));
            }
            self.history_table_throughput.insert(*table_id, history);
            proof {
                let next = table_stats@.restrict(done.insert(*table_id));
                let prev = table_stats@.restrict(done);
                assert(next.contains_key(*table_id) && next[*table_id] == table_stats@[*table_id]);
                assert forall|h: TableId| h != *table_id implies next.contains_key(h)
                    == prev.contains_key(h) && (next.contains_key(h) ==> next[h] == prev[h]) by {}
                assert(!prev.contains_key(*table_id));
                assert(history_view(self.history_table_throughput@) =~= with_throughputs(
                    before,
                    next,
                    limit,
                ));
                done = done.insert(*table_id);
            }
        }
        proof {
            assert forall|t: TableId| table_stats@.contains_key(t) implies done.contains(t) by {
                let j = all.index_of((&t, &table_stats@[t]));
                assert(*all[j].0 == t);
            }
            assert(table_stats@.restrict(done) =~= table_stats@);
        }
    }
}

/// The tables that share their compaction group with another table.
pub open spec fn tables_sharing_group(info: Map<TableId, StateTableInfo>) -> Set<TableId> {
    Set::new(
        |t: TableId|
            info.contains_key(t) && crate::state_table_info::member_tables_of(
                info,
            )[info[t].compaction_group_id].len() > 1,
    )
}

impl HummockManager {
    /// The statistics of `table_stats_change` for the tables that share
    /// their compaction group with another table: those whose write
    /// throughput is recorded.
    pub fn throughput_stats(&self, table_stats_change: &TableStatsMap) -> (r: TableStatsMap)
        requires
            self.wf(),
        ensures
            r@ == table_stats_change@.restrict(
                tables_sharing_group(self.versioning.current_version@.state_table_info),
            ),
    {
        broadcast use vstd::std_specs::hash::group_hash_axioms;
        broadcast use vstd::std_specs::btree::group_btree_axioms;

        let state = &self.versioning.current_version.state_table_info;
        let ghost sharing = tables_sharing_group(state@);
        let mut kept: TableStatsMap = HashMap::new();
        let ghost mut done: Set<TableId> = Set::empty();
        let iter = table_stats_change.iter();
        let ghost all = iter.remaining();
        proof {
            assert(kept@ =~= table_stats_change@.restrict(sharing.intersect(done)));
        }
        for entry in it: iter
            invariant
                it.seq() == all,
                state == &self.versioning.current_version.state_table_info,
                state.wf(),
                sharing == tables_sharing_group(state@),
                forall|i: int|
                    0 <= i < all.len() ==> table_stats_change@.contains_key(*(#[trigger] all[i]).0)
                        && table_stats_change@[*all[i].0] == *all[i].1,
                forall|k: TableId| #[trigger]
                    table_stats_change@.contains_key(k) ==> all.contains(
                        (&k, &table_stats_change@[k]),
                    ),
                forall|t: TableId|
                    done.contains(t) <==> exists|j: int|
                        0 <= j < it.index() && *(#[trigger] all[j]).0 == t,
                kept@ == table_stats_change@.restrict(sharing.intersect(done)),
        {
            let (table_id, stats) = entry;
            proof {
                assert(*all[it.index() as int].0 == *table_id);
            }
            let shares = match state.info().get(table_id) {
                Some(info) => {
                    match state.compaction_group_member_tables().get(&info.compaction_group_id) {
                        Some(member_tables) => member_tables.len() > 1,
                        None => false,
                    }
                },
                None => false,
            };
            proof {
                if state@.contains_key(*table_id) {
                    let g = state@[*table_id].compaction_group_id;
                    assert(crate::state_table_info::member_tables_of(state@).contains_key(g));
                    assert(state.member_tables().contains_key(g));
                }
                assert(shares == sharing.contains(*table_id));
            }
            if shares {
                kept.insert(*table_id, *stats);
            }
            proof {
                assert(kept@ =~= table_stats_change@.restrict(
                    sharing.intersect(done.insert(*table_id)),
                ));
                done = done.insert(*table_id);
            }
        }
        proof {
            assert forall|t: TableId| table_stats_change@.contains_key(t) implies done.contains(
                t,
            ) by {
                let j = all.index_of((&t, &table_stats_change@[t]));
                assert(*all[j].0 == t);
            }
            assert(table_stats_change@.restrict(sharing.intersect(done))
                =~= table_stats_change@.restrict(sharing));
        }
        kept
    }
}

} // verus!
