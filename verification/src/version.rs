//! Versions: what the store consists of at one point in time; and
//! version deltas: what takes one version to the next.

use vstd::prelude::*;
use vstd::std_specs::iter::IteratorSpec;
use std::collections::{HashMap, HashSet};
use crate::change_log::{
    truncated, ChangeLogDelta, ChangeLogDeltaView, EpochNewChangeLogView, TableChangeLog,
    TableWatermarks, TableWatermarksView,
};
use crate::epoch::{HummockEpoch, INVALID_EPOCH};
use crate::group_apply::{
    apply_group_deltas, apply_group_deltas_in_order, group_deltas_apply, group_view,
};
use crate::group_delta::{DeltaType, DeltaTypeView, GroupDeltaView, GroupDeltas};
use crate::key::TableId;
use crate::levels::{
    build_initial_compaction_group_levels, initial_group_levels, ssts_view, CompactionConfig,
    HummockSstableObjectId, Levels, LevelsView, SstableInfo, SstableInfoView,
};
use crate::state_table_info::{
    applied_info, delta_regresses, CompactionGroupId, HummockVersionStateTableInfo, StateTableInfo,
    StateTableInfoDelta,
};

verus! {

/// Identifies a version.
pub type HummockVersionId = u64;

/// The id of the first version.
pub const FIRST_VERSION_ID: HummockVersionId = 1;

/// The compaction groups that every store has.
#[derive(Debug, Clone, Copy, PartialEq, Eq, Structural)]
pub enum StaticCompactionGroupId {
    /// Marks a table file whose group is still to be found.
    NewCompactionGroup,
    /// Reserved.
    SharedBuffer,
    /// The group of the tables that keep the state of operators.
    StateDefault,
    /// The group of the tables that hold materialized views.
    MaterializedView,
    /// The first id that is free for other groups.
    End,
}

impl StaticCompactionGroupId {
    /// The id of the group.
    pub open spec fn id_spec(self) -> CompactionGroupId {
        match self {
            StaticCompactionGroupId::NewCompactionGroup => 0,
            StaticCompactionGroupId::SharedBuffer => 1,
            StaticCompactionGroupId::StateDefault => 2,
            StaticCompactionGroupId::MaterializedView => 3,
            StaticCompactionGroupId::End => 4,
        }
    }

    /// The id of the group.
    #[verifier::when_used_as_spec(id_spec)]
    pub fn id(self) -> (r: CompactionGroupId)
        ensures
            r == self.id_spec(),
    {
        match self {
            StaticCompactionGroupId::NewCompactionGroup => 0,
            StaticCompactionGroupId::SharedBuffer => 1,
            StaticCompactionGroupId::StateDefault => 2,
            StaticCompactionGroupId::MaterializedView => 3,
            StaticCompactionGroupId::End => 4,
        }
    }
}

/// The levels of a map, each by its view.
pub open spec fn levels_map_view(levels: Map<CompactionGroupId, Levels>) -> Map<
    CompactionGroupId,
    LevelsView,
> {
    levels.map_values(|l: Levels| l@)
}

/// The watermarks of a map, each by its view.
pub open spec fn watermarks_map_view(watermarks: Map<TableId, TableWatermarks>) -> Map<
    TableId,
    TableWatermarksView,
> {
    watermarks.map_values(|w: TableWatermarks| w@)
}

/// The change logs of a map, each by its view.
pub open spec fn change_log_map_view(logs: Map<TableId, TableChangeLog>) -> Map<
    TableId,
    Seq<EpochNewChangeLogView>,
> {
    logs.map_values(|l: TableChangeLog| l@)
}

/// The group deltas of a map, each by its view.
pub open spec fn group_deltas_map_view(deltas: Map<CompactionGroupId, GroupDeltas>) -> Map<
    CompactionGroupId,
    Seq<GroupDeltaView>,
> {
    deltas.map_values(|d: GroupDeltas| d@)
}

/// The change log deltas of a map, each by its view.
pub open spec fn change_log_delta_map_view(deltas: Map<TableId, ChangeLogDelta>) -> Map<
    TableId,
    ChangeLogDeltaView,
> {
    deltas.map_values(|d: ChangeLogDelta| d@)
}

/// What a `HummockVersion` stands for.
pub struct HummockVersionView {
    pub id: HummockVersionId,
    pub levels: Map<CompactionGroupId, LevelsView>,
    pub max_committed_epoch: HummockEpoch,
    pub safe_epoch: HummockEpoch,
    pub table_watermarks: Map<TableId, TableWatermarksView>,
    pub table_change_log: Map<TableId, Seq<EpochNewChangeLogView>>,
    pub state_table_info: Map<TableId, StateTableInfo>,
}

/// A version as it is stored.
#[derive(Debug)]
pub struct PbHummockVersion {
    pub id: HummockVersionId,
    pub levels: HashMap<CompactionGroupId, Levels>,
    pub max_committed_epoch: HummockEpoch,
    pub safe_epoch: HummockEpoch,
    pub table_watermarks: HashMap<TableId, TableWatermarks>,
    pub table_change_logs: HashMap<TableId, TableChangeLog>,
    pub state_table_info: HashMap<TableId, StateTableInfo>,
}

impl View for PbHummockVersion {
    type V = HummockVersionView;

    open spec fn view(&self) -> HummockVersionView {
        HummockVersionView {
            id: self.id,
            levels: levels_map_view(self.levels@),
            max_committed_epoch: self.max_committed_epoch,
            safe_epoch: self.safe_epoch,
            table_watermarks: watermarks_map_view(self.table_watermarks@),
            table_change_log: change_log_map_view(self.table_change_logs@),
            state_table_info: self.state_table_info@,
        }
    }
}

impl Default for PbHummockVersion {
    fn default() -> (r: Self)
        ensures
            r@ == (HummockVersionView {
                id: 0,
                levels: Map::empty(),
                max_committed_epoch: 0,
                safe_epoch: 0,
                table_watermarks: Map::empty(),
                table_change_log: Map::empty(),
                state_table_info: Map::empty(),
            }),
    {
        let r = PbHummockVersion {
            id: 0,
            levels: HashMap::new(),
            max_committed_epoch: 0,
            safe_epoch: 0,
            table_watermarks: HashMap::new(),
            table_change_logs: HashMap::new(),
            state_table_info: HashMap::new(),
        };
        proof {
            assert(r@.levels =~= Map::empty());
            assert(r@.table_watermarks =~= Map::empty());
            assert(r@.table_change_log =~= Map::empty());
        }
        r
    }
}

/// The store at one point in time: the table files of every compaction
/// group, the epochs up to which the store is committed and readable,
/// and what is recorded of each table.
#[derive(Debug, PartialEq)]
pub struct HummockVersion {
    pub id: HummockVersionId,
    pub levels: HashMap<CompactionGroupId, Levels>,
    pub max_committed_epoch: HummockEpoch,
    pub safe_epoch: HummockEpoch,
    pub table_watermarks: HashMap<TableId, TableWatermarks>,
    pub table_change_log: HashMap<TableId, TableChangeLog>,
    pub state_table_info: HummockVersionStateTableInfo,
}

impl View for HummockVersion {
    type V = HummockVersionView;

    open spec fn view(&self) -> HummockVersionView {
        HummockVersionView {
            id: self.id,
            levels: levels_map_view(self.levels@),
            max_committed_epoch: self.max_committed_epoch,
            safe_epoch: self.safe_epoch,
            table_watermarks: watermarks_map_view(self.table_watermarks@),
            table_change_log: change_log_map_view(self.table_change_log@),
            state_table_info: self.state_table_info@,
        }
    }
}

impl Clone for HummockVersion {
    fn clone(&self) -> (r: Self)
        ensures
            r@ == self@,
            self.wf() ==> r.wf(),
    {
        HummockVersion {
            id: self.id,
            levels: self.levels.clone(),
            max_committed_epoch: self.max_committed_epoch,
            safe_epoch: self.safe_epoch,
            table_watermarks: self.table_watermarks.clone(),
            table_change_log: self.table_change_log.clone(),
            state_table_info: self.state_table_info.clone(),
        }
    }
}

impl Default for HummockVersion {
    fn default() -> (r: Self)
        ensures
            r.wf(),
            r@ == PbHummockVersion::default_view(),
    {
        HummockVersion::from_protobuf_inner(&PbHummockVersion::default())
    }
}

impl PbHummockVersion {
    /// What the stored version without content stands for.
    pub open spec fn default_view() -> HummockVersionView {
        HummockVersionView {
            id: 0,
            levels: Map::empty(),
            max_committed_epoch: 0,
            safe_epoch: 0,
            table_watermarks: Map::empty(),
            table_change_log: Map::empty(),
            state_table_info: Map::empty(),
        }
    }
}

impl HummockVersion {
    /// The index of the tables is what their records say.
    pub open spec fn wf(&self) -> bool {
        self.state_table_info.wf()
    }

    /// The version that `pb_version`, received from another node, stands
    /// for.
    pub fn from_rpc_protobuf(pb_version: &PbHummockVersion) -> (r: Self)
        ensures
            r.wf(),
            r@ == pb_version@,
    {
        Self::from_protobuf_inner(pb_version)
    }

    /// The version that `pb_version`, read from the store, stands for.
    pub fn from_persisted_protobuf(pb_version: &PbHummockVersion) -> (r: Self)
        ensures
            r.wf(),
            r@ == pb_version@,
    {
        Self::from_protobuf_inner(pb_version)
    }

    fn from_protobuf_inner(pb_version: &PbHummockVersion) -> (r: Self)
        ensures
            r.wf(),
            r@ == pb_version@,
    {
        Self {
            id: pb_version.id,
            levels: pb_version.levels.clone(),
            max_committed_epoch: pb_version.max_committed_epoch,
            safe_epoch: pb_version.safe_epoch,
            table_watermarks: pb_version.table_watermarks.clone(),
            table_change_log: pb_version.table_change_logs.clone(),
            state_table_info: HummockVersionStateTableInfo::from_protobuf(
                &pb_version.state_table_info,
            ),
        }
    }

    /// The version as it is stored.
    pub fn to_protobuf(&self) -> (r: PbHummockVersion)
        ensures
            r@ == self@,
    {
        PbHummockVersion {
            id: self.id,
            levels: self.levels.clone(),
            max_committed_epoch: self.max_committed_epoch,
            safe_epoch: self.safe_epoch,
            table_watermarks: self.table_watermarks.clone(),
            table_change_logs: self.table_change_log.clone(),
            state_table_info: self.state_table_info.to_protobuf(),
        }
    }

    /// The id of the version that follows.
    pub fn next_version_id(&self) -> (r: HummockVersionId)
        requires
            self.id < u64::MAX,
        ensures
            r == self.id + 1,
    {
        self.id + 1
    }

    pub(crate) fn set_safe_epoch(&mut self, safe_epoch: HummockEpoch)
        ensures
            *final(self) == (HummockVersion { safe_epoch, ..*old(self) }),
    {
        self.safe_epoch = safe_epoch;
    }

    /// The oldest epoch at which the tables can still be read.
    pub fn visible_table_safe_epoch(&self) -> (r: HummockEpoch)
        ensures
            r == self@.safe_epoch,
    {
        self.safe_epoch
    }
}

/// What a `HummockVersionDelta` stands for.
pub struct HummockVersionDeltaView {
    pub id: HummockVersionId,
    pub prev_id: HummockVersionId,
    pub group_deltas: Map<CompactionGroupId, Seq<GroupDeltaView>>,
    pub max_committed_epoch: HummockEpoch,
    pub safe_epoch: HummockEpoch,
    pub trivial_move: bool,
    pub new_table_watermarks: Map<TableId, TableWatermarksView>,
    pub removed_table_ids: Set<TableId>,
    pub change_log_delta: Map<TableId, ChangeLogDeltaView>,
    pub state_table_info_delta: Map<TableId, StateTableInfoDelta>,
}

/// A version delta as it is stored.
#[derive(Debug)]
pub struct PbHummockVersionDelta {
    pub id: HummockVersionId,
    pub prev_id: HummockVersionId,
    pub group_deltas: HashMap<CompactionGroupId, GroupDeltas>,
    pub max_committed_epoch: HummockEpoch,
    pub safe_epoch: HummockEpoch,
    pub trivial_move: bool,
    pub new_table_watermarks: HashMap<TableId, TableWatermarks>,
    pub removed_table_ids: Vec<TableId>,
    pub change_log_delta: HashMap<TableId, ChangeLogDelta>,
    pub state_table_info_delta: HashMap<TableId, StateTableInfoDelta>,
}

impl View for PbHummockVersionDelta {
    type V = HummockVersionDeltaView;

    open spec fn view(&self) -> HummockVersionDeltaView {
        HummockVersionDeltaView {
            id: self.id,
            prev_id: self.prev_id,
            group_deltas: group_deltas_map_view(self.group_deltas@),
            max_committed_epoch: self.max_committed_epoch,
            safe_epoch: self.safe_epoch,
            trivial_move: self.trivial_move,
            new_table_watermarks: watermarks_map_view(self.new_table_watermarks@),
            removed_table_ids: self.removed_table_ids@.to_set(),
            change_log_delta: change_log_delta_map_view(self.change_log_delta@),
            state_table_info_delta: self.state_table_info_delta@,
        }
    }
}

impl PbHummockVersionDelta {
    /// What the stored delta without content stands for.
    pub open spec fn default_view() -> HummockVersionDeltaView {
        HummockVersionDeltaView {
            id: 0,
            prev_id: 0,
            group_deltas: Map::empty(),
            max_committed_epoch: 0,
            safe_epoch: 0,
            trivial_move: false,
            new_table_watermarks: Map::empty(),
            removed_table_ids: Set::empty(),
            change_log_delta: Map::empty(),
            state_table_info_delta: Map::empty(),
        }
    }
}

impl Default for PbHummockVersionDelta {
    fn default() -> (r: Self)
        ensures
            r@ == PbHummockVersionDelta::default_view(),
    {
        let r = PbHummockVersionDelta {
            id: 0,
            prev_id: 0,
            group_deltas: HashMap::new(),
            max_committed_epoch: 0,
            safe_epoch: 0,
            trivial_move: false,
            new_table_watermarks: HashMap::new(),
            removed_table_ids: Vec::new(),
            change_log_delta: HashMap::new(),
            state_table_info_delta: HashMap::new(),
        };
        proof {
            assert(r@.group_deltas =~= Map::empty());
            assert(r@.new_table_watermarks =~= Map::empty());
            assert(r@.change_log_delta =~= Map::empty());
            assert(r@.removed_table_ids =~= Set::empty());
        }
        r
    }
}

/// What takes one version to the next: the record of one commit or of
/// one finished compaction. Once stored it is never changed.
#[derive(Debug, PartialEq)]
pub struct HummockVersionDelta {
    pub id: HummockVersionId,
    pub prev_id: HummockVersionId,
    pub group_deltas: HashMap<CompactionGroupId, GroupDeltas>,
    pub max_committed_epoch: HummockEpoch,
    pub safe_epoch: HummockEpoch,
    pub trivial_move: bool,
    pub new_table_watermarks: HashMap<TableId, TableWatermarks>,
    pub removed_table_ids: HashSet<TableId>,
    pub change_log_delta: HashMap<TableId, ChangeLogDelta>,
    pub state_table_info_delta: HashMap<TableId, StateTableInfoDelta>,
}

impl View for HummockVersionDelta {
    type V = HummockVersionDeltaView;

    open spec fn view(&self) -> HummockVersionDeltaView {
        HummockVersionDeltaView {
            id: self.id,
            prev_id: self.prev_id,
            group_deltas: group_deltas_map_view(self.group_deltas@),
            max_committed_epoch: self.max_committed_epoch,
            safe_epoch: self.safe_epoch,
            trivial_move: self.trivial_move,
            new_table_watermarks: watermarks_map_view(self.new_table_watermarks@),
            removed_table_ids: self.removed_table_ids@,
            change_log_delta: change_log_delta_map_view(self.change_log_delta@),
            state_table_info_delta: self.state_table_info_delta@,
        }
    }
}

impl Clone for HummockVersionDelta {
    fn clone(&self) -> (r: Self)
        ensures
            r@ == self@,
    {
        HummockVersionDelta {
            id: self.id,
            prev_id: self.prev_id,
            group_deltas: self.group_deltas.clone(),
            max_committed_epoch: self.max_committed_epoch,
            safe_epoch: self.safe_epoch,
            trivial_move: self.trivial_move,
            new_table_watermarks: self.new_table_watermarks.clone(),
            removed_table_ids: clone_table_id_set(&self.removed_table_ids),
            change_log_delta: self.change_log_delta.clone(),
            state_table_info_delta: self.state_table_info_delta.clone(),
        }
    }
}

impl Default for HummockVersionDelta {
    fn default() -> (r: Self)
        ensures
            r@ == PbHummockVersionDelta::default_view(),
    {
        HummockVersionDelta::from_protobuf_inner(&PbHummockVersionDelta::default())
    }
}

/// A copy of a set of table ids.
pub fn clone_table_id_set(set: &HashSet<TableId>) -> (r: HashSet<TableId>)
    ensures
        r@ == set@,
{
    broadcast use vstd::std_specs::hash::group_hash_axioms;

    let mut r: HashSet<TableId> = HashSet::new();
    let iter = set.iter();
    let ghost all = iter.remaining();
    for table_id in it: iter
        invariant
            it.seq() == all,
            all.unref().to_set() == set@,
            forall|t: TableId|
                r@.contains(t) <==> exists|j: int|
                    0 <= j < it.index() && *(#[trigger] all[j]) == t,
    {
        proof {
            assert(*all[it.index() as int] == *table_id);
        }
        r.insert(*table_id);
    }
    proof {
        assert forall|t: TableId| set@.contains(t) implies r@.contains(t) by {
            assert(all.unref().contains(t));
            let j = choose|j: int| 0 <= j < all.unref().len() && all.unref()[j] == t;
            assert(*all[j] == t);
        }
        assert forall|t: TableId| r@.contains(t) implies set@.contains(t) by {
            let j = choose|j: int| 0 <= j < all.len() && *(#[trigger] all[j]) == t;
            assert(all.unref()[j] == t);
        }
        assert(r@ =~= set@);
    }
    r
}

/// The set of the table ids of a vector.
pub fn table_id_set_of(ids: &Vec<TableId>) -> (r: HashSet<TableId>)
    ensures
        r@ == ids@.to_set(),
{
    broadcast use vstd::std_specs::hash::group_hash_axioms;

    let mut r: HashSet<TableId> = HashSet::new();
    let mut i: usize = 0;
    while i < ids.len()
        invariant
            i <= ids.len(),
            r@ == ids@.take(i as int).to_set(),
        decreases ids.len() - i,
    {
        r.insert(ids[i]);
        proof {
            assert(ids@.take(i + 1) =~= ids@.take(i as int).push(ids@[i as int]));
            assert(ids@.take(i + 1).to_set() =~= ids@.take(i as int).to_set().insert(
                ids@[i as int],
            )) by {
                let a = ids@.take(i as int);
                let b = ids@.take(i + 1);
                assert forall|t: TableId| b.to_set().contains(t) == a.to_set().insert(
                    ids@[i as int],
                ).contains(t) by {
                    if b.contains(t) {
                        let k = choose|k: int| 0 <= k < b.len() && b[k] == t;
                        if k < i {
                            assert(a[k] == t);
                        }
                    }
                    if a.contains(t) {
                        let k = choose|k: int| 0 <= k < a.len() && a[k] == t;
                        assert(b[k] == t);
                    }
                    if t == ids@[i as int] {
                        assert(b[i as int] == t);
                    }
                }
            }
        }
        i = i + 1;
    }
    proof {
        assert(ids@.take(ids.len() as int) =~= ids@);
    }
    r
}

/// The table ids of a set, in some order.
pub fn table_ids_of_set(set: &HashSet<TableId>) -> (r: Vec<TableId>)
    ensures
        r@.to_set() == set@,
        r@.no_duplicates(),
{
    broadcast use vstd::std_specs::hash::group_hash_axioms;

    let mut r: Vec<TableId> = Vec::new();
    let iter = set.iter();
    let ghost all = iter.remaining();
    for table_id in it: iter
        invariant
            it.seq() == all,
            all.no_duplicates(),
            all.unref().to_set() == set@,
            r@ == all.unref().take(it.index() as int),
    {
        proof {
            let k = it.index() as int;
            assert(all.unref()[k] == *table_id);
            assert(all.unref().take(k + 1) =~= all.unref().take(k).push(*table_id));
        }
        r.push(*table_id);
    }
    proof {
        assert(all.unref().take(all.len() as int) =~= all.unref());
        assert forall|i: int, j: int| 0 <= i < r@.len() && 0 <= j < r@.len() && i != j implies r@[i]
            != r@[j] by {
            assert(all[i] != all[j]);
        }
    }
    r
}

impl HummockVersionDelta {
    /// The delta that `delta`, read from the store, stands for.
    pub fn from_persisted_protobuf(delta: &PbHummockVersionDelta) -> (r: Self)
        ensures
            r@ == delta@,
    {
        Self::from_protobuf_inner(delta)
    }

    /// The delta that `delta`, received from another node, stands for.
    pub fn from_rpc_protobuf(delta: &PbHummockVersionDelta) -> (r: Self)
        ensures
            r@ == delta@,
    {
        Self::from_protobuf_inner(delta)
    }

    fn from_protobuf_inner(delta: &PbHummockVersionDelta) -> (r: Self)
        ensures
            r@ == delta@,
    {
        Self {
            id: delta.id,
            prev_id: delta.prev_id,
            group_deltas: delta.group_deltas.clone(),
            max_committed_epoch: delta.max_committed_epoch,
            safe_epoch: delta.safe_epoch,
            trivial_move: delta.trivial_move,
            new_table_watermarks: delta.new_table_watermarks.clone(),
            removed_table_ids: table_id_set_of(&delta.removed_table_ids),
            change_log_delta: delta.change_log_delta.clone(),
            state_table_info_delta: delta.state_table_info_delta.clone(),
        }
    }

    /// The delta as it is stored.
    pub fn to_protobuf(&self) -> (r: PbHummockVersionDelta)
        ensures
            r@ == self@,
    {
        PbHummockVersionDelta {
            id: self.id,
            prev_id: self.prev_id,
            group_deltas: self.group_deltas.clone(),
            max_committed_epoch: self.max_committed_epoch,
            safe_epoch: self.safe_epoch,
            trivial_move: self.trivial_move,
            new_table_watermarks: self.new_table_watermarks.clone(),
            removed_table_ids: table_ids_of_set(&self.removed_table_ids),
            change_log_delta: self.change_log_delta.clone(),
            state_table_info_delta: self.state_table_info_delta.clone(),
        }
    }
}

impl HummockVersion {
    /// The skeleton of the delta that follows this version: it carries
    /// the next id and the epochs of this version, and changes nothing.
    pub fn version_delta_after(&self) -> (r: HummockVersionDelta)
        requires
            self.id < u64::MAX,
        ensures
            r@ == self@.delta_after(),
    {
        let r = HummockVersionDelta {
            id: self.next_version_id(),
            prev_id: self.id,
            safe_epoch: self.safe_epoch,
            trivial_move: false,
            max_committed_epoch: self.max_committed_epoch,
            group_deltas: HashMap::new(),
            new_table_watermarks: HashMap::new(),
            removed_table_ids: HashSet::new(),
            change_log_delta: HashMap::new(),
            state_table_info_delta: HashMap::new(),
        };
        proof {
            assert(r@.group_deltas =~= Map::empty());
            assert(r@.new_table_watermarks =~= Map::empty());
            assert(r@.change_log_delta =~= Map::empty());
        }
        r
    }

    /// The first version of a store: the two groups that every store has,
    /// each without a table file, and no table.
    pub fn create_init_version(default_compaction_config: &CompactionConfig) -> (r: HummockVersion)
        requires
            default_compaction_config.max_level < u32::MAX,
        ensures
            r.wf(),
            r@ == HummockVersionView::init(*default_compaction_config),
    {
        broadcast use vstd::std_specs::hash::group_hash_axioms;

        let mut init_version = HummockVersion {
            id: FIRST_VERSION_ID,
            levels: HashMap::new(),
            max_committed_epoch: INVALID_EPOCH,
            safe_epoch: INVALID_EPOCH,
            table_watermarks: HashMap::new(),
            table_change_log: HashMap::new(),
            state_table_info: HummockVersionStateTableInfo::empty(),
        };
        let state_default = StaticCompactionGroupId::StateDefault.id();
        init_version.levels.insert(
            state_default,
            build_initial_compaction_group_levels(state_default, default_compaction_config),
        );
        let materialized_view = StaticCompactionGroupId::MaterializedView.id();
        init_version.levels.insert(
            materialized_view,
            build_initial_compaction_group_levels(materialized_view, default_compaction_config),
        );
        proof {
            let goal = HummockVersionView::init(*default_compaction_config);
            assert(init_version@.levels =~= goal.levels);
            assert(init_version@.table_watermarks =~= goal.table_watermarks);
            assert(init_version@.table_change_log =~= goal.table_change_log);
        }
        init_version
    }
}

impl HummockVersionView {
    /// The skeleton of the delta that follows the version.
    pub open spec fn delta_after(self) -> HummockVersionDeltaView {
        HummockVersionDeltaView {
            id: (self.id + 1) as HummockVersionId,
            prev_id: self.id,
            group_deltas: Map::empty(),
            max_committed_epoch: self.max_committed_epoch,
            safe_epoch: self.safe_epoch,
            trivial_move: false,
            new_table_watermarks: Map::empty(),
            removed_table_ids: Set::empty(),
            change_log_delta: Map::empty(),
            state_table_info_delta: Map::empty(),
        }
    }

    /// The first version of a store whose groups have the settings
    /// `config`.
    pub open spec fn init(config: CompactionConfig) -> HummockVersionView {
        HummockVersionView {
            id: FIRST_VERSION_ID,
            levels: Map::<CompactionGroupId, LevelsView>::empty().insert(
                StaticCompactionGroupId::StateDefault.id_spec(),
                initial_group_levels(StaticCompactionGroupId::StateDefault.id_spec(), config),
            ).insert(
                StaticCompactionGroupId::MaterializedView.id_spec(),
                initial_group_levels(StaticCompactionGroupId::MaterializedView.id_spec(), config),
            ),
            max_committed_epoch: INVALID_EPOCH,
            safe_epoch: INVALID_EPOCH,
            table_watermarks: Map::empty(),
            table_change_log: Map::empty(),
            state_table_info: Map::empty(),
        }
    }
}

/// The levels of group `group_id` in `levels`, if the group is there.
pub open spec fn group_of(
    levels: Map<CompactionGroupId, LevelsView>,
    group_id: CompactionGroupId,
) -> Option<LevelsView> {
    if levels.contains_key(group_id) {
        Some(levels[group_id])
    } else {
        None
    }
}

/// The groups after the changes of a delta: each group that the delta
/// names is what the changes make of it, the others are as they were.
pub open spec fn applied_levels(
    levels: Map<CompactionGroupId, LevelsView>,
    deltas: Map<CompactionGroupId, Seq<GroupDeltaView>>,
    is_commit: bool,
) -> Map<CompactionGroupId, LevelsView> {
    Map::new(
        |g: CompactionGroupId|
            if deltas.contains_key(g) {
                apply_group_deltas(group_of(levels, g), g, deltas[g], is_commit) is Some
            } else {
                levels.contains_key(g)
            },
        |g: CompactionGroupId|
            if deltas.contains_key(g) {
                apply_group_deltas(group_of(levels, g), g, deltas[g], is_commit)->0
            } else {
                levels[g]
            },
    )
}

/// The watermarks after a delta: those of removed tables are gone, new
/// ones follow those that a table had, the rest is as it was.
pub open spec fn applied_watermarks(
    watermarks: Map<TableId, TableWatermarksView>,
    newer: Map<TableId, TableWatermarksView>,
    removed: Set<TableId>,
) -> Map<TableId, TableWatermarksView> {
    Map::new(
        |t: TableId| !removed.contains(t) && (watermarks.contains_key(t) || newer.contains_key(t)),
        |t: TableId|
            if newer.contains_key(t) {
                if watermarks.contains_key(t) {
                    watermarks[t].with(newer[t])
                } else {
                    newer[t]
                }
            } else {
                watermarks[t]
            },
    )
}

/// The change logs after a delta: those of removed tables are gone; where
/// the delta has an entry for a table, the entry follows those that the
/// table had, and what does not outlive the truncation is dropped; the
/// rest is as it was.
pub open spec fn applied_change_log(
    logs: Map<TableId, Seq<EpochNewChangeLogView>>,
    delta: Map<TableId, ChangeLogDeltaView>,
    removed: Set<TableId>,
) -> Map<TableId, Seq<EpochNewChangeLogView>> {
    Map::new(
        |t: TableId| !removed.contains(t) && (logs.contains_key(t) || delta.contains_key(t)),
        |t: TableId|
            if delta.contains_key(t) {
                let held = if logs.contains_key(t) {
                    logs[t]
                } else {
                    Seq::empty()
                };
                truncated(held.push(delta[t].new_log), delta[t].truncate_epoch)
            } else {
                logs[t]
            },
    )
}

impl HummockVersionView {
    /// Whether `delta` is a commit: it takes the committed epoch on.
    pub open spec fn is_commit(self, delta: HummockVersionDeltaView) -> bool {
        delta.max_committed_epoch > self.max_committed_epoch
    }

    /// Whether `delta` can be applied: it follows this version, takes no
    /// epoch of a table back, and the changes to each group can be made.
    pub open spec fn can_apply(self, delta: HummockVersionDeltaView) -> bool {
        &&& self.id == delta.prev_id
        &&& !delta_regresses(
            self.state_table_info,
            delta.state_table_info_delta,
            delta.removed_table_ids,
        )
        &&& forall|g: CompactionGroupId| #[trigger]
            delta.group_deltas.contains_key(g) ==> group_deltas_apply(
                group_of(self.levels, g),
                g,
                delta.group_deltas[g],
                self.is_commit(delta),
            )
    }

    /// The version that `delta` makes of this one.
    pub open spec fn applied(self, delta: HummockVersionDeltaView) -> HummockVersionView {
        HummockVersionView {
            id: delta.id,
            levels: applied_levels(self.levels, delta.group_deltas, self.is_commit(delta)),
            max_committed_epoch: delta.max_committed_epoch,
            safe_epoch: delta.safe_epoch,
            table_watermarks: applied_watermarks(
                self.table_watermarks,
                delta.new_table_watermarks,
                delta.removed_table_ids,
            ),
            table_change_log: applied_change_log(
                self.table_change_log,
                delta.change_log_delta,
                delta.removed_table_ids,
            ),
            state_table_info: applied_info(
                self.state_table_info,
                delta.state_table_info_delta,
                delta.removed_table_ids,
            ),
        }
    }
}

/// Takes the tables of `removed` out of `map`.
fn remove_tables<V>(map: &mut HashMap<TableId, V>, removed: &HashSet<TableId>)
    ensures
        final(map)@ == old(map)@.remove_keys(removed@),
{
    broadcast use vstd::std_specs::hash::group_hash_axioms;

    let ghost before = map@;
    let ghost mut gone: Set<TableId> = Set::empty();
    let iter = removed.iter();
    let ghost all = iter.remaining();
    proof {
        assert(map@ =~= before.remove_keys(gone));
    }
    for table_id in it: iter
        invariant
            it.seq() == all,
            all.unref().to_set() == removed@,
            forall|t: TableId|
                gone.contains(t) <==> exists|j: int|
                    0 <= j < it.index() && *(#[trigger] all[j]) == t,
            map@ == before.remove_keys(gone),
    {
        proof {
            assert(*all[it.index() as int] == *table_id);
        }
        map.remove(table_id);
        proof {
            assert(map@ =~= before.remove_keys(gone.insert(*table_id)));
            gone = gone.insert(*table_id);
        }
    }
    proof {
        assert forall|t: TableId| removed@.contains(t) implies gone.contains(t) by {
            assert(all.unref().contains(t));
            let j = choose|j: int| 0 <= j < all.unref().len() && all.unref()[j] == t;
            assert(*all[j] == t);
        }
        assert forall|t: TableId| gone.contains(t) implies removed@.contains(t) by {
            let j = choose|j: int| 0 <= j < all.len() && *(#[trigger] all[j]) == t;
            assert(all.unref()[j] == t);
        }
        assert(gone =~= removed@);
    }
}

impl HummockVersion {
    /// Whether the changes that `version_delta` makes to the groups can
    /// be made.
    fn can_apply_group_deltas(&self, version_delta: &HummockVersionDelta) -> (r: bool)
        ensures
            r == forall|g: CompactionGroupId| #[trigger]
                version_delta@.group_deltas.contains_key(g) ==> group_deltas_apply(
                    group_of(self@.levels, g),
                    g,
                    version_delta@.group_deltas[g],
                    self@.is_commit(version_delta@),
                ),
    {
        broadcast use vstd::std_specs::hash::group_hash_axioms;

        let is_commit = version_delta.max_committed_epoch > self.max_committed_epoch;
        let iter = version_delta.group_deltas.iter();
        let ghost all = iter.remaining();
        let ghost deltas = version_delta.group_deltas@;
        for entry in it: iter
            invariant
                it.seq() == all,
                deltas == version_delta.group_deltas@,
                is_commit == self@.is_commit(version_delta@),
                forall|i: int|
                    0 <= i < all.len() ==> deltas.contains_key(*(#[trigger] all[i]).0)
                        && deltas[*all[i].0] == *all[i].1,
                forall|k: CompactionGroupId| #[trigger]
                    deltas.contains_key(k) ==> all.contains((&k, &deltas[k])),
                forall|j: int|
                    0 <= j < it.index() ==> group_deltas_apply(
                        group_of(self@.levels, *(#[trigger] all[j]).0),
                        *all[j].0,
                        deltas[*all[j].0]@,
                        is_commit,
                    ),
        {
            let (group_id, group_deltas) = entry;
            proof {
                assert(*all[it.index() as int].0 == *group_id);
            }
            let mut group = match self.levels.get(group_id) {
                Some(levels) => Some(levels.clone()),
                None => None,
            };
            if !apply_group_deltas_in_order(&mut group, *group_id, group_deltas, is_commit) {
                proof {
                    assert(version_delta@.group_deltas.contains_key(*group_id));
                }
                return false;
            }
        }
        proof {
            assert forall|g: CompactionGroupId| #[trigger]
                version_delta@.group_deltas.contains_key(g) implies group_deltas_apply(
                group_of(self@.levels, g),
                g,
                version_delta@.group_deltas[g],
                is_commit,
            ) by {
                let j = all.index_of((&g, &deltas[g]));
                assert(*all[j].0 == g);
            }
        }
        true
    }

    /// Whether `version_delta` can be applied.
    pub fn can_apply_version_delta(&self, version_delta: &HummockVersionDelta) -> (r: bool)
        ensures
            r == self@.can_apply(version_delta@),
    {
        self.id == version_delta.prev_id && !self.state_table_info.regresses(
            &version_delta.state_table_info_delta,
            &version_delta.removed_table_ids,
        ) && self.can_apply_group_deltas(version_delta)
    }

    /// Makes the changes of `version_delta` to the groups.
    fn apply_group_deltas(&mut self, version_delta: &HummockVersionDelta)
        requires
            forall|g: CompactionGroupId| #[trigger]
                version_delta@.group_deltas.contains_key(g) ==> group_deltas_apply(
                    group_of(old(self)@.levels, g),
                    g,
                    version_delta@.group_deltas[g],
                    old(self)@.is_commit(version_delta@),
                ),
        ensures
            final(self)@ == (HummockVersionView {
                levels: applied_levels(
                    old(self)@.levels,
                    version_delta@.group_deltas,
                    old(self)@.is_commit(version_delta@),
                ),
                ..old(self)@
            }),
            final(self).state_table_info == old(self).state_table_info,
    {
        broadcast use vstd::std_specs::hash::group_hash_axioms;

        let is_commit = version_delta.max_committed_epoch > self.max_committed_epoch;
        let ghost before = self@.levels;
        let ghost deltas = version_delta.group_deltas@;
        let ghost deltas_view = version_delta@.group_deltas;
        let ghost mut done: Set<CompactionGroupId> = Set::empty();
        let iter = version_delta.group_deltas.iter();
        let ghost all = iter.remaining();
        proof {
            assert(self@.levels =~= applied_levels(before, deltas_view.restrict(done), is_commit));
        }
        for entry in it: iter
            invariant
                it.seq() == all,
                all.no_duplicates(),
                deltas == version_delta.group_deltas@,
                deltas_view == version_delta@.group_deltas,
                is_commit == (version_delta.max_committed_epoch > old(self).max_committed_epoch),
                forall|g: CompactionGroupId| #[trigger]
                    deltas_view.contains_key(g) ==> group_deltas_apply(
                        group_of(before, g),
                        g,
                        deltas_view[g],
                        is_commit,
                    ),
                forall|i: int|
                    0 <= i < all.len() ==> deltas.contains_key(*(#[trigger] all[i]).0)
                        && deltas[*all[i].0] == *all[i].1,
                forall|k: CompactionGroupId| #[trigger]
                    deltas.contains_key(k) ==> all.contains((&k, &deltas[k])),
                forall|g: CompactionGroupId|
                    done.contains(g) <==> exists|j: int|
                        0 <= j < it.index() && *(#[trigger] all[j]).0 == g,
                self@ == (HummockVersionView {
                    levels: applied_levels(before, deltas_view.restrict(done), is_commit),
                    ..old(self)@
                }),
                self.state_table_info == old(self).state_table_info,
        {
            let (group_id, group_deltas) = entry;
            let ghost levels_now = self@.levels;
            proof {
                let k = it.index() as int;
                assert(*all[k].0 == *group_id);
                if done.contains(*group_id) {
                    let j = choose|j: int| 0 <= j < k && *(#[trigger] all[j]).0 == *group_id;
                    assert(all[j] == all[k]);
                }
                assert(deltas_view.contains_key(*group_id));
                assert(deltas_view[*group_id] == group_deltas@);
                assert(group_of(levels_now, *group_id) == group_of(before, *group_id));
            }
            let ghost held = self.levels@;
            let mut group = self.levels.remove(group_id);
            proof {
                assert(group_view(group) == group_of(before, *group_id));
                assert(levels_map_view(held.remove(*group_id)) =~= levels_now.remove(*group_id));
            }
            let applied = apply_group_deltas_in_order(
                &mut group,
                *group_id,
                group_deltas,
                is_commit,
            );
            if applied {
                match group {
                    Some(levels) => {
                        proof {
                            assert(levels_map_view(held.remove(*group_id).insert(*group_id, levels))
                                =~= levels_now.remove(*group_id).insert(*group_id, levels@));
                        }
                        self.levels.insert(*group_id, levels);
                    },
                    None => {},
                }
            }
            proof {
                assert(applied);
                let next = deltas_view.restrict(done.insert(*group_id));
                let prev = deltas_view.restrict(done);
                assert(next.contains_key(*group_id) && next[*group_id] == deltas_view[*group_id]);
                assert forall|h: CompactionGroupId| h != *group_id implies next.contains_key(h)
                    == prev.contains_key(h) && (next.contains_key(h) ==> next[h] == prev[h]) by {}
                assert(self@.levels =~= applied_levels(
                    before,
                    deltas_view.restrict(done.insert(*group_id)),
                    is_commit,
                ));
                done = done.insert(*group_id);
            }
        }
        proof {
            assert forall|g: CompactionGroupId| deltas.contains_key(g) implies done.contains(g) by {
                let j = all.index_of((&g, &deltas[g]));
                assert(*all[j].0 == g);
            }
            assert(deltas_view.restrict(done) =~= deltas_view);
        }
    }

    /// Puts the new watermarks of `version_delta` in place.
    fn apply_table_watermarks(&mut self, version_delta: &HummockVersionDelta)
        ensures
            final(self)@ == (HummockVersionView {
                table_watermarks: applied_watermarks(
                    old(self)@.table_watermarks,
                    version_delta@.new_table_watermarks,
                    version_delta@.removed_table_ids,
                ),
                ..old(self)@
            }),
            final(self).state_table_info == old(self).state_table_info,
    {
        broadcast use vstd::std_specs::hash::group_hash_axioms;

        let ghost before = self@.table_watermarks;
        let ghost removed = version_delta@.removed_table_ids;
        let ghost newer = version_delta.new_table_watermarks@;
        let ghost newer_view = version_delta@.new_table_watermarks;
        remove_tables(&mut self.table_watermarks, &version_delta.removed_table_ids);
        let ghost mut done: Set<TableId> = Set::empty();
        let iter = version_delta.new_table_watermarks.iter();
        let ghost all = iter.remaining();
        proof {
            assert(self@.table_watermarks =~= applied_watermarks(
                before,
                newer_view.restrict(done),
                removed,
            ));
        }
        for entry in it: iter
            invariant
                it.seq() == all,
                all.no_duplicates(),
                removed == version_delta@.removed_table_ids,
                newer == version_delta.new_table_watermarks@,
                newer_view == version_delta@.new_table_watermarks,
                forall|i: int|
                    0 <= i < all.len() ==> newer.contains_key(*(#[trigger] all[i]).0)
                        && newer[*all[i].0] == *all[i].1,
                forall|k: TableId| #[trigger]
                    newer.contains_key(k) ==> all.contains((&k, &newer[k])),
                forall|t: TableId|
                    done.contains(t) <==> exists|j: int|
                        0 <= j < it.index() && *(#[trigger] all[j]).0 == t,
                self@ == (HummockVersionView {
                    table_watermarks: applied_watermarks(
                        before,
                        newer_view.restrict(done),
                        removed,
                    ),
                    ..old(self)@
                }),
                self.state_table_info == old(self).state_table_info,
        {
            let (table_id, table_watermarks) = entry;
            proof {
                let k = it.index() as int;
                assert(*all[k].0 == *table_id);
                if done.contains(*table_id) {
                    let j = choose|j: int| 0 <= j < k && *(#[trigger] all[j]).0 == *table_id;
                    assert(all[j] == all[k]);
                }
                assert(newer_view.contains_key(*table_id));
                assert(newer_view[*table_id] == table_watermarks@);
            }
            let ghost held = self.table_watermarks@;
            let ghost held_view = self@.table_watermarks;
            if !version_delta.removed_table_ids.contains(table_id) {
                match self.table_watermarks.remove(table_id) {
                    Some(mut current_table_watermarks) => {
                        proof {
                            assert(held.contains_key(*table_id));
                            assert(held_view[*table_id] == current_table_watermarks@);
                        }
                        current_table_watermarks.apply_new_table_watermarks(table_watermarks);
                        proof {
                            assert(watermarks_map_view(
                                held.remove(*table_id).insert(*table_id, current_table_watermarks),
                            ) =~= held_view.insert(*table_id, current_table_watermarks@));
                        }
                        self.table_watermarks.insert(*table_id, current_table_watermarks);
                    },
                    None => {
                        let copy = table_watermarks.clone();
                        proof {
                            assert(watermarks_map_view(
                                held.remove(*table_id).insert(*table_id, copy),
                            ) =~= held_view.insert(*table_id, copy@));
                        }
                        self.table_watermarks.insert(*table_id, copy);
                    },
                }
            }
            proof {
                let next = newer_view.restrict(done.insert(*table_id));
                let prev = newer_view.restrict(done);
                assert(next.contains_key(*table_id) && next[*table_id] == newer_view[*table_id]);
                assert forall|h: TableId| h != *table_id implies next.contains_key(h)
                    == prev.contains_key(h) && (next.contains_key(h) ==> next[h] == prev[h]) by {}
                let now = self@.table_watermarks;
                let goal = applied_watermarks(before, next, removed);
                assert(held_view == applied_watermarks(before, prev, removed));
                assert(!prev.contains_key(*table_id));
                assert(held_view.contains_key(*table_id) == (!removed.contains(*table_id)
                    && before.contains_key(*table_id)));
                assert(now.contains_key(*table_id) == goal.contains_key(*table_id));
                if now.contains_key(*table_id) {
                    assert(now[*table_id] == goal[*table_id]);
                }
                assert forall|h: TableId| h != *table_id implies now.contains_key(h)
                    == goal.contains_key(h) && (now.contains_key(h) ==> now[h] == goal[h]) by {
                    assert(now.contains_key(h) == held_view.contains_key(h));
                }
                assert(self@.table_watermarks =~= applied_watermarks(
                    before,
                    newer_view.restrict(done.insert(*table_id)),
                    removed,
                ));
                done = done.insert(*table_id);
            }
        }
        proof {
            assert forall|t: TableId| newer.contains_key(t) implies done.contains(t) by {
                let j = all.index_of((&t, &newer[t]));
                assert(*all[j].0 == t);
            }
            assert(newer_view.restrict(done) =~= newer_view);
        }
    }

    /// Applies what `version_delta` does to the change logs.
    fn apply_change_log_delta(&mut self, version_delta: &HummockVersionDelta)
        ensures
            final(self)@ == (HummockVersionView {
                table_change_log: applied_change_log(
                    old(self)@.table_change_log,
                    version_delta@.change_log_delta,
                    version_delta@.removed_table_ids,
                ),
                ..old(self)@
            }),
            final(self).state_table_info == old(self).state_table_info,
    {
        broadcast use vstd::std_specs::hash::group_hash_axioms;

        let ghost before = self@.table_change_log;
        let ghost removed = version_delta@.removed_table_ids;
        let ghost delta = version_delta.change_log_delta@;
        let ghost delta_view = version_delta@.change_log_delta;
        remove_tables(&mut self.table_change_log, &version_delta.removed_table_ids);
        let ghost mut done: Set<TableId> = Set::empty();
        let iter = version_delta.change_log_delta.iter();
        let ghost all = iter.remaining();
        proof {
            assert(self@.table_change_log =~= applied_change_log(
                before,
                delta_view.restrict(done),
                removed,
            ));
        }
        for entry in it: iter
            invariant
                it.seq() == all,
                all.no_duplicates(),
                removed == version_delta@.removed_table_ids,
                delta == version_delta.change_log_delta@,
                delta_view == version_delta@.change_log_delta,
                forall|i: int|
                    0 <= i < all.len() ==> delta.contains_key(*(#[trigger] all[i]).0)
                        && delta[*all[i].0] == *all[i].1,
                forall|k: TableId| #[trigger]
                    delta.contains_key(k) ==> all.contains((&k, &delta[k])),
                forall|t: TableId|
                    done.contains(t) <==> exists|j: int|
                        0 <= j < it.index() && *(#[trigger] all[j]).0 == t,
                self@ == (HummockVersionView {
                    table_change_log: applied_change_log(
                        before,
                        delta_view.restrict(done),
                        removed,
                    ),
                    ..old(self)@
                }),
                self.state_table_info == old(self).state_table_info,
        {
            let (table_id, change_log_delta) = entry;
            proof {
                let k = it.index() as int;
                assert(*all[k].0 == *table_id);
                if done.contains(*table_id) {
                    let j = choose|j: int| 0 <= j < k && *(#[trigger] all[j]).0 == *table_id;
                    assert(all[j] == all[k]);
                }
                assert(delta_view.contains_key(*table_id));
                assert(delta_view[*table_id] == change_log_delta@);
            }
            let ghost held = self.table_change_log@;
            let ghost held_view = self@.table_change_log;
            if !version_delta.removed_table_ids.contains(table_id) {
                let mut change_log = match self.table_change_log.remove(table_id) {
                    Some(change_log) => {
                        proof {
                            assert(held.contains_key(*table_id));
                            assert(held_view[*table_id] == change_log@);
                        }
                        change_log
                    },
                    None => {
                        let empty = TableChangeLog { logs: Vec::new() };
                        proof {
                            assert(empty@ =~= Seq::empty());
                        }
                        empty
                    },
                };
                change_log.push(change_log_delta.new_log.clone());
                change_log.truncate(change_log_delta.truncate_epoch);
                proof {
                    assert(change_log_map_view(held.remove(*table_id).insert(*table_id, change_log))
                        =~= held_view.insert(*table_id, change_log@));
                }
                self.table_change_log.insert(*table_id, change_log);
            }
            proof {
                let next = delta_view.restrict(done.insert(*table_id));
                let prev = delta_view.restrict(done);
                assert(next.contains_key(*table_id) && next[*table_id] == delta_view[*table_id]);
                assert forall|h: TableId| h != *table_id implies next.contains_key(h)
                    == prev.contains_key(h) && (next.contains_key(h) ==> next[h] == prev[h]) by {}
                let now = self@.table_change_log;
                let goal = applied_change_log(before, next, removed);
                assert(held_view == applied_change_log(before, prev, removed));
                assert(!prev.contains_key(*table_id));
                assert(held_view.contains_key(*table_id) == (!removed.contains(*table_id)
                    && before.contains_key(*table_id)));
                assert(now.contains_key(*table_id) == goal.contains_key(*table_id));
                if now.contains_key(*table_id) {
                    assert(now[*table_id] == goal[*table_id]);
                }
                assert forall|h: TableId| h != *table_id implies now.contains_key(h)
                    == goal.contains_key(h) && (now.contains_key(h) ==> now[h] == goal[h]) by {
                    assert(now.contains_key(h) == held_view.contains_key(h));
                }
                assert(self@.table_change_log =~= applied_change_log(
                    before,
                    delta_view.restrict(done.insert(*table_id)),
                    removed,
                ));
                done = done.insert(*table_id);
            }
        }
        proof {
            assert forall|t: TableId| delta.contains_key(t) implies done.contains(t) by {
                let j = all.index_of((&t, &delta[t]));
                assert(*all[j].0 == t);
            }
            assert(delta_view.restrict(done) =~= delta_view);
        }
    }

    /// Applies `version_delta`: makes the version that follows.
    pub fn apply_version_delta(&mut self, version_delta: &HummockVersionDelta)
        requires
            old(self).wf(),
            old(self)@.can_apply(version_delta@),
        ensures
            final(self).wf(),
            final(self)@ == old(self)@.applied(version_delta@),
    {
        self.state_table_info.apply_delta(
            &version_delta.state_table_info_delta,
            &version_delta.removed_table_ids,
        );
        self.apply_group_deltas(version_delta);
        self.id = version_delta.id;
        self.max_committed_epoch = version_delta.max_committed_epoch;
        self.set_safe_epoch(version_delta.safe_epoch);
        self.apply_table_watermarks(version_delta);
        self.apply_change_log_delta(version_delta);
    }
}

/// The ids of the objects that hold the files `ssts`.
pub open spec fn sst_object_ids(ssts: Seq<SstableInfoView>) -> Set<HummockSstableObjectId> {
    Set::new(
        |id: HummockSstableObjectId|
            exists|j: int| 0 <= j < ssts.len() && (#[trigger] ssts[j]).object_id == id,
    )
}

/// The files that enter a level by the change `delta`.
pub open spec fn inserted_by(delta: GroupDeltaView) -> Seq<SstableInfoView> {
    match delta.delta_type {
        Some(DeltaTypeView::IntraLevel(d)) => d.inserted_table_infos,
        _ => Seq::empty(),
    }
}

/// The ids of the objects that hold the files that enter a level by one
/// of the changes `deltas`.
pub open spec fn inserted_object_ids(deltas: Seq<GroupDeltaView>) -> Set<HummockSstableObjectId> {
    Set::new(
        |id: HummockSstableObjectId|
            exists|i: int|
                0 <= i < deltas.len() && sst_object_ids(inserted_by(#[trigger] deltas[i])).contains(
                    id,
                ),
    )
}

impl HummockVersionDeltaView {
    /// The ids of the objects that the delta brings in: those of the
    /// files that enter a level, and those of the files of the new change
    /// log entries.
    pub open spec fn newly_added_object_ids(self) -> Set<HummockSstableObjectId> {
        Set::new(
            |id: HummockSstableObjectId|
                (exists|g: CompactionGroupId| #[trigger]
                    self.group_deltas.contains_key(g) && inserted_object_ids(
                        self.group_deltas[g],
                    ).contains(id)) || (exists|t: TableId| #[trigger]
                    self.change_log_delta.contains_key(t) && (sst_object_ids(
                        self.change_log_delta[t].new_log.new_value,
                    ).contains(id) || sst_object_ids(
                        self.change_log_delta[t].new_log.old_value,
                    ).contains(id))),
        )
    }
}

/// Adds the ids of the objects that hold the files `ssts`.
fn add_object_ids(ids: &mut HashSet<HummockSstableObjectId>, ssts: &Vec<SstableInfo>)
    ensures
        final(ids)@ == old(ids)@.union(sst_object_ids(ssts_view(ssts@))),
{
    broadcast use vstd::std_specs::hash::group_hash_axioms;

    let ghost before = ids@;
    let ghost all = ssts_view(ssts@);
    let mut j: usize = 0;
    proof {
        assert(ids@ =~= before.union(sst_object_ids(all.take(0))));
    }
    while j < ssts.len()
        invariant
            j <= ssts.len(),
            all == ssts_view(ssts@),
            ids@ == before.union(sst_object_ids(all.take(j as int))),
        decreases ssts.len() - j,
    {
        ids.insert(ssts[j].object_id);
        proof {
            let a = all.take(j as int);
            let b = all.take(j + 1);
            assert(b[j as int] == ssts@[j as int]@);
            assert forall|id: HummockSstableObjectId|
                sst_object_ids(b).contains(id) == sst_object_ids(a).insert(
                    ssts@[j as int].object_id,
                ).contains(id) by {
                if sst_object_ids(b).contains(id) {
                    let k = choose|k: int| 0 <= k < b.len() && (#[trigger] b[k]).object_id == id;
                    if k < j {
                        assert(a[k].object_id == id);
                    }
                }
                if sst_object_ids(a).contains(id) {
                    let k = choose|k: int| 0 <= k < a.len() && (#[trigger] a[k]).object_id == id;
                    assert(b[k].object_id == id);
                }
            }
            assert(ids@ =~= before.union(sst_object_ids(b)));
        }
        j = j + 1;
    }
    proof {
        assert(all.take(ssts.len() as int) =~= all);
    }
}

/// Adds the ids of the objects that hold the files that enter a level by
/// one of the changes `deltas`.
fn add_inserted_object_ids(ids: &mut HashSet<HummockSstableObjectId>, deltas: &GroupDeltas)
    ensures
        final(ids)@ == old(ids)@.union(inserted_object_ids(deltas@)),
{
    let ghost before = ids@;
    let ghost all = deltas@;
    let mut i: usize = 0;
    proof {
        assert(ids@ =~= before.union(inserted_object_ids(all.take(0))));
    }
    while i < deltas.group_deltas.len()
        invariant
            i <= deltas.group_deltas.len(),
            all == deltas@,
            ids@ == before.union(inserted_object_ids(all.take(i as int))),
        decreases deltas.group_deltas.len() - i,
    {
        let ghost a = all.take(i as int);
        let ghost b = all.take(i + 1);
        let ghost added = sst_object_ids(inserted_by(all[i as int]));
        match &deltas.group_deltas[i].delta_type {
            Some(DeltaType::IntraLevel(level_delta)) => {
                add_object_ids(ids, &level_delta.inserted_table_infos);
            },
            _ => {},
        }
        proof {
            assert(b[i as int] == deltas.group_deltas@[i as int]@);
            assert(all[i as int] == deltas.group_deltas@[i as int]@);
            assert forall|id: HummockSstableObjectId|
                inserted_object_ids(b).contains(id) == inserted_object_ids(a).union(
                    added,
                ).contains(id) by {
                if inserted_object_ids(b).contains(id) {
                    let k = choose|k: int|
                        0 <= k < b.len() && sst_object_ids(inserted_by(#[trigger] b[k])).contains(
                            id,
                        );
                    if k < i {
                        assert(a[k] == b[k]);
                    }
                }
                if inserted_object_ids(a).contains(id) {
                    let k = choose|k: int|
                        0 <= k < a.len() && sst_object_ids(inserted_by(#[trigger] a[k])).contains(
                            id,
                        );
                    assert(b[k] == a[k]);
                }
                if added.contains(id) {
                    assert(sst_object_ids(inserted_by(b[i as int])).contains(id));
                }
            }
            assert(ids@ =~= before.union(inserted_object_ids(b)));
        }
        i = i + 1;
    }
    proof {
        assert(all.take(deltas.group_deltas.len() as int) =~= all);
    }
}

impl HummockVersionDelta {
    /// The ids of the objects that the delta brings in. An object may be
    /// among them that an earlier version held already: one that was
    /// moved or split from another group or level.
    pub fn newly_added_object_ids(&self) -> (r: HashSet<HummockSstableObjectId>)
        ensures
            r@ == self@.newly_added_object_ids(),
    {
        broadcast use vstd::std_specs::hash::group_hash_axioms;

        let mut ids: HashSet<HummockSstableObjectId> = HashSet::new();
        let ghost groups = self.group_deltas@;
        let ghost mut done: Set<CompactionGroupId> = Set::empty();
        let iter = self.group_deltas.iter();
        let ghost all = iter.remaining();
        for entry in it: iter
            invariant
                it.seq() == all,
                groups == self.group_deltas@,
                forall|i: int|
                    0 <= i < all.len() ==> groups.contains_key(*(#[trigger] all[i]).0)
                        && groups[*all[i].0] == *all[i].1,
                forall|k: CompactionGroupId| #[trigger]
                    groups.contains_key(k) ==> all.contains((&k, &groups[k])),
                forall|g: CompactionGroupId|
                    done.contains(g) <==> exists|j: int|
                        0 <= j < it.index() && *(#[trigger] all[j]).0 == g,
                ids@ == Set::new(
                    |id: HummockSstableObjectId|
                        exists|g: CompactionGroupId| #[trigger]
                            done.contains(g) && groups.contains_key(g) && inserted_object_ids(
                                groups[g]@,
                            ).contains(id),
                ),
        {
            let (group_id, group_deltas) = entry;
            let ghost held = ids@;
            proof {
                assert(*all[it.index() as int].0 == *group_id);
            }
            add_inserted_object_ids(&mut ids, group_deltas);
            proof {
                let next = done.insert(*group_id);
                assert forall|id: HummockSstableObjectId|
                    ids@.contains(id) == (exists|g: CompactionGroupId| #[trigger]
                        next.contains(g) && groups.contains_key(g) && inserted_object_ids(
                            groups[g]@,
                        ).contains(id)) by {
                    if held.contains(id) {
                        let g = choose|g: CompactionGroupId| #[trigger]
                            done.contains(g) && groups.contains_key(g) && inserted_object_ids(
                                groups[g]@,
                            ).contains(id);
                        assert(next.contains(g));
                    }
                    if inserted_object_ids(group_deltas@).contains(id) {
                        assert(next.contains(*group_id));
                    }
                    if exists|g: CompactionGroupId| #[trigger]
                        next.contains(g) && groups.contains_key(g) && inserted_object_ids(
                            groups[g]@,
                        ).contains(id) {
                        let g = choose|g: CompactionGroupId| #[trigger]
                            next.contains(g) && groups.contains_key(g) && inserted_object_ids(
                                groups[g]@,
                            ).contains(id);
                        if g != *group_id {
                            assert(done.contains(g));
                        }
                    }
                }
                assert(ids@ =~= Set::new(
                    |id: HummockSstableObjectId|
                        exists|g: CompactionGroupId| #[trigger]
                            next.contains(g) && groups.contains_key(g) && inserted_object_ids(
                                groups[g]@,
                            ).contains(id),
                ));
                done = next;
            }
        }
        let ghost from_groups = ids@;
        proof {
            assert forall|g: CompactionGroupId| groups.contains_key(g) implies done.contains(g) by {
                let j = all.index_of((&g, &groups[g]));
                assert(*all[j].0 == g);
            }
        }
        let ghost logs = self.change_log_delta@;
        let ghost mut done_logs: Set<TableId> = Set::empty();
        let log_iter = self.change_log_delta.iter();
        let ghost all_logs = log_iter.remaining();
        for entry in it: log_iter
            invariant
                it.seq() == all_logs,
                logs == self.change_log_delta@,
                forall|i: int|
                    0 <= i < all_logs.len() ==> logs.contains_key(*(#[trigger] all_logs[i]).0)
                        && logs[*all_logs[i].0] == *all_logs[i].1,
                forall|k: TableId| #[trigger]
                    logs.contains_key(k) ==> all_logs.contains((&k, &logs[k])),
                forall|t: TableId|
                    done_logs.contains(t) <==> exists|j: int|
                        0 <= j < it.index() && *(#[trigger] all_logs[j]).0 == t,
                ids@ == from_groups.union(
                    Set::new(
                        |id: HummockSstableObjectId|
                            exists|t: TableId| #[trigger]
                                done_logs.contains(t) && logs.contains_key(t) && (sst_object_ids(
                                    logs[t]@.new_log.new_value,
                                ).contains(id) || sst_object_ids(
                                    logs[t]@.new_log.old_value,
                                ).contains(id)),
                    ),
                ),
        {
            let (table_id, delta) = entry;
            let ghost held = ids@;
            proof {
                assert(*all_logs[it.index() as int].0 == *table_id);
            }
            add_object_ids(&mut ids, &delta.new_log.new_value);
            add_object_ids(&mut ids, &delta.new_log.old_value);
            proof {
                let next = done_logs.insert(*table_id);
                let seen = Set::new(
                    |id: HummockSstableObjectId|
                        exists|t: TableId| #[trigger]
                            done_logs.contains(t) && logs.contains_key(t) && (sst_object_ids(
                                logs[t]@.new_log.new_value,
                            ).contains(id) || sst_object_ids(
                                logs[t]@.new_log.old_value,
                            ).contains(id)),
                );
                let seen_next = Set::new(
                    |id: HummockSstableObjectId|
                        exists|t: TableId| #[trigger]
                            next.contains(t) && logs.contains_key(t) && (sst_object_ids(
                                logs[t]@.new_log.new_value,
                            ).contains(id) || sst_object_ids(
                                logs[t]@.new_log.old_value,
                            ).contains(id)),
                );
                let here = sst_object_ids(delta@.new_log.new_value).union(
                    sst_object_ids(delta@.new_log.old_value),
                );
                assert forall|id: HummockSstableObjectId|
                    seen_next.contains(id) == seen.union(here).contains(id) by {
                    if seen.contains(id) {
                        let t = choose|t: TableId| #[trigger]
                            done_logs.contains(t) && logs.contains_key(t) && (sst_object_ids(
                                logs[t]@.new_log.new_value,
                            ).contains(id) || sst_object_ids(
                                logs[t]@.new_log.old_value,
                            ).contains(id));
                        assert(next.contains(t));
                    }
                    if here.contains(id) {
                        assert(next.contains(*table_id));
                    }
                    if seen_next.contains(id) {
                        let t = choose|t: TableId| #[trigger]
                            next.contains(t) && logs.contains_key(t) && (sst_object_ids(
                                logs[t]@.new_log.new_value,
                            ).contains(id) || sst_object_ids(
                                logs[t]@.new_log.old_value,
                            ).contains(id));
                        if t != *table_id {
                            assert(done_logs.contains(t));
                        }
                    }
                }
                assert(ids@ =~= from_groups.union(seen_next));
                done_logs = next;
            }
        }
        proof {
            assert forall|t: TableId| logs.contains_key(t) implies done_logs.contains(t) by {
                let j = all_logs.index_of((&t, &logs[t]));
                assert(*all_logs[j].0 == t);
            }
            let goal = self@.newly_added_object_ids();
            assert forall|id: HummockSstableObjectId| ids@.contains(id) == goal.contains(id) by {
                if from_groups.contains(id) {
                    let g = choose|g: CompactionGroupId| #[trigger]
                        done.contains(g) && groups.contains_key(g) && inserted_object_ids(
                            groups[g]@,
                        ).contains(id);
                    assert(self@.group_deltas.contains_key(g));
                    assert(self@.group_deltas[g] == groups[g]@);
                }
                if ids@.contains(id) && !from_groups.contains(id) {
                    let t = choose|t: TableId| #[trigger]
                        done_logs.contains(t) && logs.contains_key(t) && (sst_object_ids(
                            logs[t]@.new_log.new_value,
                        ).contains(id) || sst_object_ids(logs[t]@.new_log.old_value).contains(id));
                    assert(self@.change_log_delta.contains_key(t));
                    assert(self@.change_log_delta[t] == logs[t]@);
                }
                if goal.contains(id) {
                    if exists|g: CompactionGroupId| #[trigger]
                        self@.group_deltas.contains_key(g) && inserted_object_ids(
                            self@.group_deltas[g],
                        ).contains(id) {
                        let g = choose|g: CompactionGroupId| #[trigger]
                            self@.group_deltas.contains_key(g) && inserted_object_ids(
                                self@.group_deltas[g],
                            ).contains(id);
                        assert(groups.contains_key(g));
                        assert(done.contains(g));
                        assert(self@.group_deltas[g] == groups[g]@);
                    } else {
                        let t = choose|t: TableId| #[trigger]
                            self@.change_log_delta.contains_key(t) && (sst_object_ids(
                                self@.change_log_delta[t].new_log.new_value,
                            ).contains(id) || sst_object_ids(
                                self@.change_log_delta[t].new_log.old_value,
                            ).contains(id));
                        assert(logs.contains_key(t));
                        assert(done_logs.contains(t));
                        assert(self@.change_log_delta[t] == logs[t]@);
                    }
                }
            }
            assert(ids@ =~= goal);
        }
        ids
    }
}

/// Whether group `g` of `levels` lists table `t`.
pub open spec fn listed_in(
    levels: Map<CompactionGroupId, LevelsView>,
    g: CompactionGroupId,
    t: TableId,
) -> bool {
    levels.contains_key(g) && levels[g].member_table_ids.contains(t)
}

/// No table is listed twice, be it by one group or by two.
pub open spec fn listed_once(levels: Map<CompactionGroupId, LevelsView>) -> bool {
    &&& forall|g: CompactionGroupId| #[trigger]
        levels.contains_key(g) ==> levels[g].member_table_ids.no_duplicates()
    &&& forall|g1: CompactionGroupId, g2: CompactionGroupId, t: TableId|
        #[trigger] listed_in(levels, g1, t) && #[trigger] listed_in(levels, g2, t) ==> g1 == g2
}

impl HummockVersionView {
    /// Whether a group lists a table.
    pub open spec fn lists_tables(self) -> bool {
        exists|g: CompactionGroupId| #[trigger]
            self.levels.contains_key(g) && self.levels[g].member_table_ids.len() > 0
    }

    /// `info_delta`, and for each table that a group lists a record with
    /// the epochs of the version and that group.
    pub open spec fn backward_compatible_delta(
        self,
        info_delta: Map<TableId, StateTableInfoDelta>,
    ) -> Map<TableId, StateTableInfoDelta> {
        Map::new(
            |t: TableId|
                info_delta.contains_key(t) || exists|g: CompactionGroupId|
                    listed_in(self.levels, g, t),
            |t: TableId|
                if exists|g: CompactionGroupId| listed_in(self.levels, g, t) {
                    StateTableInfoDelta {
                        committed_epoch: self.max_committed_epoch,
                        safe_epoch: self.safe_epoch,
                        compaction_group_id: choose|g: CompactionGroupId|
                            listed_in(self.levels, g, t),
                    }
                } else {
                    info_delta[t]
                },
        )
    }
}

impl HummockVersion {
    /// An estimate of the size of the version as it is stored, given the
    /// sizes that its groups and its watermarks take when encoded: these,
    /// and the size of a key for each of them; `usize::MAX` where that is
    /// more than a `usize` holds.
    pub fn estimated_encode_len(
        &self,
        levels_encoded_len: usize,
        table_watermarks_encoded_len: usize,
    ) -> (r: usize)
        ensures
            r == vstd::math::min(
                self.levels@.len() * 8 + levels_encoded_len + self.table_watermarks@.len() * 4
                    + table_watermarks_encoded_len,
                usize::MAX as int,
            ),
    {
        broadcast use vstd::std_specs::hash::group_hash_axioms;

        let group_keys = match self.levels.len().checked_mul(8) {
            Some(n) => n,
            None => {
                return usize::MAX;
            },
        };
        let table_keys = match self.table_watermarks.len().checked_mul(4) {
            Some(n) => n,
            None => {
                return usize::MAX;
            },
        };
        let groups = match group_keys.checked_add(levels_encoded_len) {
            Some(n) => n,
            None => {
                return usize::MAX;
            },
        };
        let tables = match table_keys.checked_add(table_watermarks_encoded_len) {
            Some(n) => n,
            None => {
                return usize::MAX;
            },
        };
        match groups.checked_add(tables) {
            Some(n) => n,
            None => usize::MAX,
        }
    }

    /// Whether the version comes from a time before tables had a state
    /// table info: it has none, yet a group lists a table.
    pub fn need_fill_backward_compatible_state_table_info_delta(&self) -> (r: bool)
        ensures
            r == (self@.state_table_info.is_empty() && self@.lists_tables()),
    {
        broadcast use vstd::std_specs::hash::group_hash_axioms;

        if !self.state_table_info.info().is_empty() {
            return false;
        }
        assert(self@.state_table_info.is_empty());
        let ghost levels = self.levels@;
        let iter = self.levels.iter();
        let ghost all = iter.remaining();
        for entry in it: iter
            invariant
                it.seq() == all,
                levels == self.levels@,
                forall|i: int|
                    0 <= i < all.len() ==> levels.contains_key(*(#[trigger] all[i]).0)
                        && levels[*all[i].0] == *all[i].1,
                forall|k: CompactionGroupId| #[trigger]
                    levels.contains_key(k) ==> all.contains((&k, &levels[k])),
                forall|j: int|
                    0 <= j < it.index() ==> (#[trigger] all[j]).1.member_table_ids@.len() == 0,
                self@.state_table_info.is_empty(),
        {
            let (group_id, group) = entry;
            proof {
                assert(*all[it.index() as int].1 == *group);
                assert(levels.contains_key(*group_id) && levels[*group_id] == *group);
            }
            if group.member_table_ids.len() > 0 {
                proof {
                    assert(self@.levels.contains_key(*group_id));
                    assert(self@.levels[*group_id].member_table_ids.len() > 0);
                }
                return true;
            }
        }
        proof {
            assert forall|g: CompactionGroupId| #[trigger]
                self@.levels.contains_key(g) implies self@.levels[g].member_table_ids.len()
                == 0 by {
                let j = all.index_of((&g, &levels[g]));
                assert(*all[j].1 == levels[g]);
            }
        }
        false
    }

    /// Gives `delta` a record for each table that a group of this version
    /// lists, with the epochs of the version and that group: what a
    /// version from before tables had a state table info needs to go on.
    pub fn may_fill_backward_compatible_state_table_info_delta(
        &self,
        delta: &mut HummockVersionDelta,
    )
        requires
            listed_once(self@.levels),
            forall|g: CompactionGroupId, t: TableId| #[trigger]
                listed_in(self@.levels, g, t) ==> !old(delta)@.state_table_info_delta.contains_key(
                    t,
                ),
        ensures
            final(delta)@ == (HummockVersionDeltaView {
                state_table_info_delta: self@.backward_compatible_delta(
                    old(delta)@.state_table_info_delta,
                ),
                ..old(delta)@
            }),
    {
        broadcast use vstd::std_specs::hash::group_hash_axioms;

        let ghost levels = self.levels@;
        let ghost views = self@.levels;
        let ghost given = delta@.state_table_info_delta;
        let ghost mut done: Set<CompactionGroupId> = Set::empty();
        let iter = self.levels.iter();
        let ghost all = iter.remaining();
        proof {
            assert(delta@.state_table_info_delta =~= filled_from(self@, given, done, 0, 0));
        }
        for entry in it: iter
            invariant
                it.seq() == all,
                all.no_duplicates(),
                levels == self.levels@,
                views == self@.levels,
                listed_once(views),
                forall|i: int|
                    0 <= i < all.len() ==> levels.contains_key(*(#[trigger] all[i]).0)
                        && levels[*all[i].0] == *all[i].1,
                forall|k: CompactionGroupId| #[trigger]
                    levels.contains_key(k) ==> all.contains((&k, &levels[k])),
                forall|g: CompactionGroupId|
                    done.contains(g) <==> exists|j: int|
                        0 <= j < it.index() && *(#[trigger] all[j]).0 == g,
                delta@ == (HummockVersionDeltaView {
                    state_table_info_delta: filled_from(self@, given, done, 0, 0),
                    ..old(delta)@
                }),
        {
            let (cg_id, group) = entry;
            proof {
                let k = it.index() as int;
                assert(*all[k].0 == *cg_id);
                if done.contains(*cg_id) {
                    let j = choose|j: int| 0 <= j < k && *(#[trigger] all[j]).0 == *cg_id;
                    assert(all[j] == all[k]);
                }
                assert(views.contains_key(*cg_id));
                assert(views[*cg_id].member_table_ids == group.member_table_ids@);
                assert(delta@.state_table_info_delta =~= filled_from(self@, given, done, *cg_id, 0));
            }
            let mut i: usize = 0;
            while i < group.member_table_ids.len()
                invariant
                    i <= group.member_table_ids.len(),
                    views == self@.levels,
                    listed_once(views),
                    views.contains_key(*cg_id),
                    !done.contains(*cg_id),
                    views[*cg_id].member_table_ids == group.member_table_ids@,
                    delta@ == (HummockVersionDeltaView {
                        state_table_info_delta: filled_from(self@, given, done, *cg_id, i as int),
                        ..old(delta)@
                    }),
                decreases group.member_table_ids.len() - i,
            {
                let table_id = group.member_table_ids[i];
                delta.state_table_info_delta.insert(
                    table_id,
                    StateTableInfoDelta {
                        committed_epoch: self.max_committed_epoch,
                        safe_epoch: self.safe_epoch,
                        compaction_group_id: *cg_id,
                    },
                );
                proof {
                    let ids = group.member_table_ids@;
                    assert(listed_in(views, *cg_id, table_id)) by {
                        assert(ids[i as int] == table_id);
                    }
                    assert forall|t: TableId|
                        reached(views, done, *cg_id, i + 1, t) == (reached(
                            views,
                            done,
                            *cg_id,
                            i as int,
                            t,
                        ) || t == table_id) by {
                        let a = ids.take(i as int);
                        let b = ids.take(i + 1);
                        if b.contains(t) {
                            let k = choose|k: int| 0 <= k < b.len() && b[k] == t;
                            if k < i {
                                assert(a[k] == t);
                            }
                        }
                        if a.contains(t) {
                            let k = choose|k: int| 0 <= k < a.len() && a[k] == t;
                            assert(b[k] == t);
                        }
                        if t == table_id {
                            assert(ids.take(i + 1)[i as int] == t);
                        }
                    }
                    assert(delta@.state_table_info_delta =~= filled_from(
                        self@,
                        given,
                        done,
                        *cg_id,
                        i + 1,
                    ));
                }
                i = i + 1;
            }
            proof {
                let ids = group.member_table_ids@;
                assert(ids.take(ids.len() as int) =~= ids);
                let next = done.insert(*cg_id);
                assert forall|t: TableId|
                    reached(views, next, 0, 0, t) == reached(
                        views,
                        done,
                        *cg_id,
                        ids.len() as int,
                        t,
                    ) by {
                    assert(views[*cg_id].member_table_ids.take(0) =~= Seq::empty());
                    if views.contains_key(0) {
                        assert(views[0].member_table_ids.take(0) =~= Seq::empty());
                    }
                    if reached(views, next, 0, 0, t) {
                        let g = choose|g: CompactionGroupId|
                            next.contains(g) && listed_in(views, g, t);
                        if g != *cg_id {
                            assert(done.contains(g) && listed_in(views, g, t));
                        }
                    }
                    if exists|g: CompactionGroupId| done.contains(g) && listed_in(views, g, t) {
                        let g = choose|g: CompactionGroupId|
                            done.contains(g) && listed_in(views, g, t);
                        assert(next.contains(g) && listed_in(views, g, t));
                    }
                    if ids.contains(t) {
                        assert(next.contains(*cg_id) && listed_in(views, *cg_id, t));
                    }
                }
                assert(delta@.state_table_info_delta =~= filled_from(self@, given, next, 0, 0));
                done = next;
            }
        }
        proof {
            assert forall|g: CompactionGroupId| levels.contains_key(g) implies done.contains(g) by {
                let j = all.index_of((&g, &levels[g]));
                assert(*all[j].0 == g);
            }
            assert forall|t: TableId|
                reached(views, done, 0, 0, t) == (exists|g: CompactionGroupId|
                    listed_in(views, g, t)) by {
                if views.contains_key(0) {
                    assert(views[0].member_table_ids.take(0) =~= Seq::empty());
                }
                if reached(views, done, 0, 0, t) {
                    let g = choose|g: CompactionGroupId| done.contains(g) && listed_in(views, g, t);
                    assert(listed_in(views, g, t));
                }
                if exists|g: CompactionGroupId| listed_in(views, g, t) {
                    let g = choose|g: CompactionGroupId| listed_in(views, g, t);
                    assert(done.contains(g) && listed_in(views, g, t));
                }
            }
            assert(filled_from(self@, given, done, 0, 0) =~= self@.backward_compatible_delta(given));
        }
    }
}

/// Whether table `t` is listed by a group of `done`, or among the first
/// `n` tables that group `current` lists.
pub open spec fn reached(
    levels: Map<CompactionGroupId, LevelsView>,
    done: Set<CompactionGroupId>,
    current: CompactionGroupId,
    n: int,
    t: TableId,
) -> bool {
    (exists|g: CompactionGroupId| done.contains(g) && listed_in(levels, g, t)) || (
    levels.contains_key(current) && levels[current].member_table_ids.take(n).contains(t))
}

/// `info_delta`, and for each table reached a record with the epochs of
/// the version and the group that lists the table.
pub open spec fn filled_from(
    v: HummockVersionView,
    info_delta: Map<TableId, StateTableInfoDelta>,
    done: Set<CompactionGroupId>,
    current: CompactionGroupId,
    n: int,
) -> Map<TableId, StateTableInfoDelta> {
    Map::new(
        |t: TableId| info_delta.contains_key(t) || reached(v.levels, done, current, n, t),
        |t: TableId|
            if reached(v.levels, done, current, n, t) {
                StateTableInfoDelta {
                    committed_epoch: v.max_committed_epoch,
                    safe_epoch: v.safe_epoch,
                    compaction_group_id: choose|g: CompactionGroupId| listed_in(v.levels, g, t),
                }
            } else {
                info_delta[t]
            },
    )
}

/// Whether every table of `sst` is recorded by `info` as a member of
/// group `g`.
pub open spec fn sst_in_group(
    sst: SstableInfoView,
    g: CompactionGroupId,
    info: Map<TableId, StateTableInfo>,
) -> bool {
    forall|i: int|
        0 <= i < sst.table_ids.len() ==> info.contains_key(#[trigger] sst.table_ids[i])
            && info[sst.table_ids[i]].compaction_group_id == g
}

/// Whether every table of every file of `level` is recorded by `info` as
/// a member of group `g`.
pub open spec fn level_in_group(
    level: crate::levels::LevelView,
    g: CompactionGroupId,
    info: Map<TableId, StateTableInfo>,
) -> bool {
    forall|j: int|
        0 <= j < level.table_infos.len() ==> sst_in_group(#[trigger] level.table_infos[j], g, info)
}

impl HummockVersionView {
    /// Every table belongs to a group that the version has.
    pub open spec fn tables_in_groups(self) -> bool {
        forall|t: TableId| #[trigger]
            self.state_table_info.contains_key(t) ==> self.levels.contains_key(
                self.state_table_info[t].compaction_group_id,
            )
    }

    /// No table is committed beyond the committed epoch of the version,
    /// and none is readable from later on than it is committed.
    pub open spec fn tables_committed(self) -> bool {
        forall|t: TableId| #[trigger]
            self.state_table_info.contains_key(t) ==> self.state_table_info[t].safe_epoch
                <= self.state_table_info[t].committed_epoch
                && self.state_table_info[t].committed_epoch <= self.max_committed_epoch
    }

    /// No sub-level of level 0 is newer than the committed epoch.
    pub open spec fn sub_levels_committed(self) -> bool {
        forall|g: CompactionGroupId, k: int|
            self.levels.contains_key(g) && 0 <= k < self.levels[g].l0.sub_levels.len() ==> (
            #[trigger] self.levels[g].l0.sub_levels[k]).sub_level_id <= self.max_committed_epoch
    }

    /// The version has the groups that every store has.
    pub open spec fn has_static_groups(self) -> bool {
        self.levels.contains_key(StaticCompactionGroupId::StateDefault.id_spec())
            && self.levels.contains_key(StaticCompactionGroupId::MaterializedView.id_spec())
    }

    /// The version is one that commits can go on from.
    pub open spec fn healthy(self) -> bool {
        &&& self.safe_epoch <= self.max_committed_epoch
        &&& self.tables_in_groups()
        &&& self.tables_committed()
        &&& self.sub_levels_committed()
        &&& self.has_static_groups()
    }

    /// Every table that a file of the version covers is a member of the
    /// group in which the file lies.
    pub open spec fn ssts_in_member_groups(self) -> bool {
        &&& forall|g: CompactionGroupId, k: int|
            self.levels.contains_key(g) && 0 <= k < self.levels[g].levels.len() ==> level_in_group(
                #[trigger] self.levels[g].levels[k],
                g,
                self.state_table_info,
            )
        &&& forall|g: CompactionGroupId, k: int|
            self.levels.contains_key(g) && 0 <= k < self.levels[g].l0.sub_levels.len()
                ==> level_in_group(
                #[trigger] self.levels[g].l0.sub_levels[k],
                g,
                self.state_table_info,
            )
    }
}

} // verus!
