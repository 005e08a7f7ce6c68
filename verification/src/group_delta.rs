//! The changes that a version delta makes to one compaction group.

use vstd::prelude::*;
use crate::key::TableId;
use crate::levels::{
    clone_ssts, clone_u32s, clone_u64s, ssts_view, CompactionConfig, HummockSstableId, SstableInfo,
    SstableInfoView,
};
use crate::state_table_info::CompactionGroupId;

verus! {

/// What an `IntraLevelDelta` stands for.
pub struct IntraLevelDeltaView {
    pub level_idx: u32,
    pub l0_sub_level_id: u64,
    pub removed_table_ids: Seq<HummockSstableId>,
    pub inserted_table_infos: Seq<SstableInfoView>,
}

/// A change to the table files of one level: files that leave it and
/// files that enter it.
#[derive(Debug, PartialEq, Eq)]
pub struct IntraLevelDelta {
    pub level_idx: u32,
    /// For level 0, the sub-level that the files enter.
    pub l0_sub_level_id: u64,
    pub removed_table_ids: Vec<HummockSstableId>,
    pub inserted_table_infos: Vec<SstableInfo>,
}

impl View for IntraLevelDelta {
    type V = IntraLevelDeltaView;

    open spec fn view(&self) -> IntraLevelDeltaView {
        IntraLevelDeltaView {
            level_idx: self.level_idx,
            l0_sub_level_id: self.l0_sub_level_id,
            removed_table_ids: self.removed_table_ids@,
            inserted_table_infos: ssts_view(self.inserted_table_infos@),
        }
    }
}

impl Clone for IntraLevelDelta {
    fn clone(&self) -> (r: Self)
        ensures
            r@ == self@,
    {
        IntraLevelDelta {
            level_idx: self.level_idx,
            l0_sub_level_id: self.l0_sub_level_id,
            removed_table_ids: clone_u64s(&self.removed_table_ids),
            inserted_table_infos: clone_ssts(&self.inserted_table_infos),
        }
    }
}

/// What a `GroupConstruct` stands for.
pub struct GroupConstructView {
    pub group_config: CompactionConfig,
    pub parent_group_id: CompactionGroupId,
    pub table_ids: Seq<TableId>,
    pub group_id: CompactionGroupId,
}

/// The making of a compaction group.
#[derive(Debug, PartialEq, Eq)]
pub struct GroupConstruct {
    pub group_config: CompactionConfig,
    pub parent_group_id: CompactionGroupId,
    pub table_ids: Vec<TableId>,
    pub group_id: CompactionGroupId,
}

impl View for GroupConstruct {
    type V = GroupConstructView;

    open spec fn view(&self) -> GroupConstructView {
        GroupConstructView {
            group_config: self.group_config,
            parent_group_id: self.parent_group_id,
            table_ids: self.table_ids@,
            group_id: self.group_id,
        }
    }
}

impl Clone for GroupConstruct {
    fn clone(&self) -> (r: Self)
        ensures
            r@ == self@,
    {
        GroupConstruct {
            group_config: self.group_config,
            parent_group_id: self.parent_group_id,
            table_ids: clone_u32s(&self.table_ids),
            group_id: self.group_id,
        }
    }
}

/// What a `GroupMetaChange` stands for.
pub struct GroupMetaChangeView {
    pub table_ids_add: Seq<TableId>,
    pub table_ids_remove: Seq<TableId>,
}

/// A change to the tables that a group lists.
#[derive(Debug, PartialEq, Eq)]
pub struct GroupMetaChange {
    pub table_ids_add: Vec<TableId>,
    pub table_ids_remove: Vec<TableId>,
}

impl View for GroupMetaChange {
    type V = GroupMetaChangeView;

    open spec fn view(&self) -> GroupMetaChangeView {
        GroupMetaChangeView {
            table_ids_add: self.table_ids_add@,
            table_ids_remove: self.table_ids_remove@,
        }
    }
}

impl Clone for GroupMetaChange {
    fn clone(&self) -> (r: Self)
        ensures
            r@ == self@,
    {
        GroupMetaChange {
            table_ids_add: clone_u32s(&self.table_ids_add),
            table_ids_remove: clone_u32s(&self.table_ids_remove),
        }
    }
}

/// What a `GroupTableChange` stands for.
pub struct GroupTableChangeView {
    pub table_ids: Seq<TableId>,
    pub target_group_id: CompactionGroupId,
    pub origin_group_id: CompactionGroupId,
}

/// The move of tables from one group to another.
#[derive(Debug, PartialEq, Eq)]
pub struct GroupTableChange {
    pub table_ids: Vec<TableId>,
    pub target_group_id: CompactionGroupId,
    pub origin_group_id: CompactionGroupId,
}

impl View for GroupTableChange {
    type V = GroupTableChangeView;

    open spec fn view(&self) -> GroupTableChangeView {
        GroupTableChangeView {
            table_ids: self.table_ids@,
            target_group_id: self.target_group_id,
            origin_group_id: self.origin_group_id,
        }
    }
}

impl Clone for GroupTableChange {
    fn clone(&self) -> (r: Self)
        ensures
            r@ == self@,
    {
        GroupTableChange {
            table_ids: clone_u32s(&self.table_ids),
            target_group_id: self.target_group_id,
            origin_group_id: self.origin_group_id,
        }
    }
}

/// What a `DeltaType` stands for.
pub enum DeltaTypeView {
    IntraLevel(IntraLevelDeltaView),
    GroupConstruct(GroupConstructView),
    GroupDestroy,
    GroupMetaChange(GroupMetaChangeView),
    GroupTableChange(GroupTableChangeView),
}

/// One change to a compaction group.
#[derive(Debug, PartialEq, Eq)]
pub enum DeltaType {
    IntraLevel(IntraLevelDelta),
    GroupConstruct(GroupConstruct),
    GroupDestroy,
    GroupMetaChange(GroupMetaChange),
    GroupTableChange(GroupTableChange),
}

impl View for DeltaType {
    type V = DeltaTypeView;

    open spec fn view(&self) -> DeltaTypeView {
        match self {
            DeltaType::IntraLevel(d) => DeltaTypeView::IntraLevel(d@),
            DeltaType::GroupConstruct(d) => DeltaTypeView::GroupConstruct(d@),
            DeltaType::GroupDestroy => DeltaTypeView::GroupDestroy,
            DeltaType::GroupMetaChange(d) => DeltaTypeView::GroupMetaChange(d@),
            DeltaType::GroupTableChange(d) => DeltaTypeView::GroupTableChange(d@),
        }
    }
}

impl Clone for DeltaType {
    fn clone(&self) -> (r: Self)
        ensures
            r@ == self@,
    {
        match self {
            DeltaType::IntraLevel(d) => DeltaType::IntraLevel(d.clone()),
            DeltaType::GroupConstruct(d) => DeltaType::GroupConstruct(d.clone()),
            DeltaType::GroupDestroy => DeltaType::GroupDestroy,
            DeltaType::GroupMetaChange(d) => DeltaType::GroupMetaChange(d.clone()),
            DeltaType::GroupTableChange(d) => DeltaType::GroupTableChange(d.clone()),
        }
    }
}

/// What a `GroupDelta` stands for.
pub struct GroupDeltaView {
    pub delta_type: Option<DeltaTypeView>,
}

/// One entry of the changes to a compaction group; it may be empty.
#[derive(Debug, PartialEq, Eq)]
pub struct GroupDelta {
    pub delta_type: Option<DeltaType>,
}

impl View for GroupDelta {
    type V = GroupDeltaView;

    open spec fn view(&self) -> GroupDeltaView {
        GroupDeltaView {
            delta_type: match self.delta_type {
                Some(d) => Some(d@),
                None => None,
            },
        }
    }
}

impl Clone for GroupDelta {
    fn clone(&self) -> (r: Self)
        ensures
            r@ == self@,
    {
        GroupDelta {
            delta_type: match &self.delta_type {
                Some(d) => Some(d.clone()),
                None => None,
            },
        }
    }
}

/// The entries of a vector, each by its view.
pub open spec fn group_deltas_view(deltas: Seq<GroupDelta>) -> Seq<GroupDeltaView> {
    deltas.map_values(|d: GroupDelta| d@)
}

/// The changes that one version delta makes to one compaction group, in
/// the order in which they apply.
#[derive(Debug, PartialEq, Eq)]
pub struct GroupDeltas {
    pub group_deltas: Vec<GroupDelta>,
}

impl View for GroupDeltas {
    type V = Seq<GroupDeltaView>;

    open spec fn view(&self) -> Seq<GroupDeltaView> {
        group_deltas_view(self.group_deltas@)
    }
}

impl Clone for GroupDeltas {
    fn clone(&self) -> (r: Self)
        ensures
            r@ == self@,
    {
        let mut group_deltas: Vec<GroupDelta> = Vec::new();
        let mut i: usize = 0;
        while i < self.group_deltas.len()
            invariant
                i <= self.group_deltas.len(),
                group_deltas.len() == i,
                forall|j: int| 0 <= j < i ==> (#[trigger] group_deltas[j])@ == self.group_deltas[j]@,
            decreases self.group_deltas.len() - i,
        {
            group_deltas.push(self.group_deltas[i].clone());
            i = i + 1;
        }
        let r = GroupDeltas { group_deltas };
        proof {
            assert(r@ =~= self@);
        }
        r
    }
}

impl Default for GroupDeltas {
    fn default() -> (r: Self)
        ensures
            r@ == Seq::<GroupDeltaView>::empty(),
    {
        let r = GroupDeltas { group_deltas: Vec::new() };
        proof {
            assert(r@ =~= Seq::<GroupDeltaView>::empty());
        }
        r
    }
}

} // verus!
