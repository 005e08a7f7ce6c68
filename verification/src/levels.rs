//! The shape of the store within one compaction group: the table files
//! of each level.

use vstd::prelude::*;
use std::collections::HashSet;
use crate::epoch::HummockEpoch;
use crate::key::{bytes_le, bytes_le_exec, bytes_to_vec, TableId};
use crate::state_table_info::CompactionGroupId;

verus! {

/// Identifies the stored object that holds a table file.
pub type HummockSstableObjectId = u64;

/// Identifies a table file within a version.
pub type HummockSstableId = u64;

/// A copy of a vector of integers.
pub fn clone_u32s(v: &Vec<u32>) -> (r: Vec<u32>)
    ensures
        r@ == v@,
{
    let r = v.clone();
    assert(r@ =~= v@);
    r
}

/// A copy of a vector of integers.
pub fn clone_u64s(v: &Vec<u64>) -> (r: Vec<u64>)
    ensures
        r@ == v@,
{
    let r = v.clone();
    assert(r@ =~= v@);
    r
}

/// What a `KeyRange` stands for.
pub struct KeyRangeView {
    pub left: Seq<u8>,
    pub right: Seq<u8>,
    pub right_exclusive: bool,
}

/// The keys that a table file spans.
#[derive(Debug, PartialEq, Eq)]
pub struct KeyRange {
    pub left: Vec<u8>,
    pub right: Vec<u8>,
    pub right_exclusive: bool,
}

impl View for KeyRange {
    type V = KeyRangeView;

    open spec fn view(&self) -> KeyRangeView {
        KeyRangeView {
            left: self.left@,
            right: self.right@,
            right_exclusive: self.right_exclusive,
        }
    }
}

impl Clone for KeyRange {
    fn clone(&self) -> (r: Self)
        ensures
            r@ == self@,
    {
        KeyRange {
            left: bytes_to_vec(self.left.as_slice()),
            right: bytes_to_vec(self.right.as_slice()),
            right_exclusive: self.right_exclusive,
        }
    }
}

/// What an `SstableInfo` stands for.
pub struct SstableInfoView {
    pub object_id: HummockSstableObjectId,
    pub sst_id: HummockSstableId,
    pub key_range: Option<KeyRangeView>,
    pub file_size: u64,
    pub table_ids: Seq<TableId>,
    pub uncompressed_file_size: u64,
    pub min_epoch: HummockEpoch,
    pub max_epoch: HummockEpoch,
    pub range_tombstone_count: u64,
}

/// The description of one table file. Once a version holds it, it is
/// never changed, only superseded.
#[derive(Debug, PartialEq, Eq)]
pub struct SstableInfo {
    pub object_id: HummockSstableObjectId,
    pub sst_id: HummockSstableId,
    pub key_range: Option<KeyRange>,
    pub file_size: u64,
    /// The tables that the file holds data of.
    pub table_ids: Vec<TableId>,
    pub uncompressed_file_size: u64,
    pub min_epoch: HummockEpoch,
    pub max_epoch: HummockEpoch,
    pub range_tombstone_count: u64,
}

impl View for SstableInfo {
    type V = SstableInfoView;

    open spec fn view(&self) -> SstableInfoView {
        SstableInfoView {
            object_id: self.object_id,
            sst_id: self.sst_id,
            key_range: match self.key_range {
                Some(r) => Some(r@),
                None => None,
            },
            file_size: self.file_size,
            table_ids: self.table_ids@,
            uncompressed_file_size: self.uncompressed_file_size,
            min_epoch: self.min_epoch,
            max_epoch: self.max_epoch,
            range_tombstone_count: self.range_tombstone_count,
        }
    }
}

impl Clone for SstableInfo {
    fn clone(&self) -> (r: Self)
        ensures
            r@ == self@,
    {
        SstableInfo {
            object_id: self.object_id,
            sst_id: self.sst_id,
            key_range: match &self.key_range {
                Some(r) => Some(r.clone()),
                None => None,
            },
            file_size: self.file_size,
            table_ids: clone_u32s(&self.table_ids),
            uncompressed_file_size: self.uncompressed_file_size,
            min_epoch: self.min_epoch,
            max_epoch: self.max_epoch,
            range_tombstone_count: self.range_tombstone_count,
        }
    }
}

impl Default for SstableInfo {
    fn default() -> (r: Self)
        ensures
            r@ == (SstableInfoView {
                object_id: 0,
                sst_id: 0,
                key_range: None,
                file_size: 0,
                table_ids: Seq::empty(),
                uncompressed_file_size: 0,
                min_epoch: 0,
                max_epoch: 0,
                range_tombstone_count: 0,
            }),
    {
        SstableInfo {
            object_id: 0,
            sst_id: 0,
            key_range: None,
            file_size: 0,
            table_ids: Vec::new(),
            uncompressed_file_size: 0,
            min_epoch: 0,
            max_epoch: 0,
            range_tombstone_count: 0,
        }
    }
}

impl SstableInfo {
    pub fn get_object_id(&self) -> (r: HummockSstableObjectId)
        ensures
            r == self.object_id,
    {
        self.object_id
    }

    pub fn get_sst_id(&self) -> (r: HummockSstableId)
        ensures
            r == self.sst_id,
    {
        self.sst_id
    }

    pub fn get_table_ids(&self) -> (r: &Vec<TableId>)
        ensures
            r@ == self.table_ids@,
    {
        &self.table_ids
    }
}

/// The table files of a vector, each by its view.
pub open spec fn ssts_view(ssts: Seq<SstableInfo>) -> Seq<SstableInfoView> {
    ssts.map_values(|s: SstableInfo| s@)
}

/// A copy of a vector of table files.
pub fn clone_ssts(ssts: &Vec<SstableInfo>) -> (r: Vec<SstableInfo>)
    ensures
        ssts_view(r@) == ssts_view(ssts@),
{
    let mut r: Vec<SstableInfo> = Vec::new();
    let mut i: usize = 0;
    while i < ssts.len()
        invariant
            i <= ssts.len(),
            r.len() == i,
            forall|j: int| 0 <= j < i ==> (#[trigger] r[j])@ == ssts[j]@,
        decreases ssts.len() - i,
    {
        r.push(ssts[i].clone());
        i = i + 1;
    }
    proof {
        assert(ssts_view(r@) =~= ssts_view(ssts@));
    }
    r
}

/// How the table files of a level relate to each other.
#[derive(Debug, Clone, Copy, PartialEq, Eq, Structural)]
pub enum LevelType {
    Unspecified,
    /// The key ranges of the files are apart and in order.
    Nonoverlapping,
    /// The key ranges of the files may overlap.
    Overlapping,
}

/// What a `Level` stands for.
pub struct LevelView {
    pub level_idx: u32,
    pub level_type: LevelType,
    pub table_infos: Seq<SstableInfoView>,
    pub sub_level_id: u64,
}

/// One level of a compaction group, or one sub-level of its level 0.
#[derive(Debug, PartialEq, Eq)]
pub struct Level {
    pub level_idx: u32,
    pub level_type: LevelType,
    pub table_infos: Vec<SstableInfo>,
    pub sub_level_id: u64,
}

impl View for Level {
    type V = LevelView;

    open spec fn view(&self) -> LevelView {
        LevelView {
            level_idx: self.level_idx,
            level_type: self.level_type,
            table_infos: ssts_view(self.table_infos@),
            sub_level_id: self.sub_level_id,
        }
    }
}

impl Clone for Level {
    fn clone(&self) -> (r: Self)
        ensures
            r@ == self@,
    {
        Level {
            level_idx: self.level_idx,
            level_type: self.level_type,
            table_infos: clone_ssts(&self.table_infos),
            sub_level_id: self.sub_level_id,
        }
    }
}

/// The levels of a vector, each by its view.
pub open spec fn levels_view(levels: Seq<Level>) -> Seq<LevelView> {
    levels.map_values(|l: Level| l@)
}

/// A copy of a vector of levels.
pub fn clone_levels(levels: &Vec<Level>) -> (r: Vec<Level>)
    ensures
        levels_view(r@) == levels_view(levels@),
{
    let mut r: Vec<Level> = Vec::new();
    let mut i: usize = 0;
    while i < levels.len()
        invariant
            i <= levels.len(),
            r.len() == i,
            forall|j: int| 0 <= j < i ==> (#[trigger] r[j])@ == levels[j]@,
        decreases levels.len() - i,
    {
        r.push(levels[i].clone());
        i = i + 1;
    }
    proof {
        assert(levels_view(r@) =~= levels_view(levels@));
    }
    r
}

/// What an `OverlappingLevel` stands for.
pub struct OverlappingLevelView {
    pub sub_levels: Seq<LevelView>,
}

/// Level 0 of a compaction group: sub-levels in the order of their ids,
/// the oldest first.
#[derive(Debug, PartialEq, Eq)]
pub struct OverlappingLevel {
    pub sub_levels: Vec<Level>,
}

impl View for OverlappingLevel {
    type V = OverlappingLevelView;

    open spec fn view(&self) -> OverlappingLevelView {
        OverlappingLevelView { sub_levels: levels_view(self.sub_levels@) }
    }
}

impl Clone for OverlappingLevel {
    fn clone(&self) -> (r: Self)
        ensures
            r@ == self@,
    {
        OverlappingLevel { sub_levels: clone_levels(&self.sub_levels) }
    }
}

/// What a `Levels` stands for.
pub struct LevelsView {
    pub levels: Seq<LevelView>,
    pub l0: OverlappingLevelView,
    pub group_id: CompactionGroupId,
    pub parent_group_id: CompactionGroupId,
    pub member_table_ids: Seq<TableId>,
}

/// The table files of one compaction group: level 0, and below it the
/// levels 1 to n, `levels[i]` being level `i + 1`.
#[derive(Debug, PartialEq, Eq)]
pub struct Levels {
    pub levels: Vec<Level>,
    pub l0: OverlappingLevel,
    pub group_id: CompactionGroupId,
    pub parent_group_id: CompactionGroupId,
    /// The tables of the group as versions recorded them before they had
    /// a state table info.
    pub member_table_ids: Vec<TableId>,
}

impl View for Levels {
    type V = LevelsView;

    open spec fn view(&self) -> LevelsView {
        LevelsView {
            levels: levels_view(self.levels@),
            l0: self.l0@,
            group_id: self.group_id,
            parent_group_id: self.parent_group_id,
            member_table_ids: self.member_table_ids@,
        }
    }
}

impl Clone for Levels {
    fn clone(&self) -> (r: Self)
        ensures
            r@ == self@,
    {
        Levels {
            levels: clone_levels(&self.levels),
            l0: self.l0.clone(),
            group_id: self.group_id,
            parent_group_id: self.parent_group_id,
            member_table_ids: clone_u32s(&self.member_table_ids),
        }
    }
}

/// The settings of a compaction group that this library reads.
#[derive(Debug, Clone, Copy, PartialEq, Eq, Structural)]
pub struct CompactionConfig {
    /// How many levels the group has below level 0.
    pub max_level: u64,
    pub max_bytes_for_level_base: u64,
    pub max_bytes_for_level_multiplier: u64,
    /// How many bytes one space-reclaim task may take.
    pub max_space_reclaim_bytes: u64,
    pub target_file_size_base: u64,
}

/// The empty levels 1 to `n` of a new group.
pub open spec fn initial_levels(n: int) -> Seq<LevelView> {
    Seq::new(
        n as nat,
        |i: int|
            LevelView {
                level_idx: (i + 1) as u32,
                level_type: LevelType::Nonoverlapping,
                table_infos: Seq::empty(),
                sub_level_id: 0,
            },
    )
}

/// The levels of a new group `group_id`, without a table file.
pub open spec fn initial_group_levels(
    group_id: CompactionGroupId,
    compaction_config: CompactionConfig,
) -> LevelsView {
    LevelsView {
        levels: initial_levels(compaction_config.max_level as int),
        l0: OverlappingLevelView { sub_levels: Seq::empty() },
        group_id,
        parent_group_id: 0,
        member_table_ids: Seq::empty(),
    }
}

/// The levels of a new group `group_id`, without a table file.
pub fn build_initial_compaction_group_levels(
    group_id: CompactionGroupId,
    compaction_config: &CompactionConfig,
) -> (r: Levels)
    requires
        compaction_config.max_level < u32::MAX,
    ensures
        r@ == initial_group_levels(group_id, *compaction_config),
{
    let mut levels: Vec<Level> = Vec::new();
    let mut l: u64 = 0;
    while l < compaction_config.max_level
        invariant
            l <= compaction_config.max_level < u32::MAX,
            levels.len() == l,
            forall|j: int|
                0 <= j < l ==> (#[trigger] levels[j])@ == initial_levels(
                    compaction_config.max_level as int,
                )[j],
        decreases compaction_config.max_level - l,
    {
        let level = Level {
            level_idx: (l + 1) as u32,
            level_type: LevelType::Nonoverlapping,
            table_infos: Vec::new(),
            sub_level_id: 0,
        };
        proof {
            assert(level@.table_infos =~= Seq::empty());
        }
        levels.push(level);
        l = l + 1;
    }
    let r = Levels {
        levels,
        l0: OverlappingLevel { sub_levels: Vec::new() },
        group_id,
        parent_group_id: 0,
        member_table_ids: Vec::new(),
    };
    proof {
        assert(r@.levels =~= initial_levels(compaction_config.max_level as int));
        assert(r@.l0.sub_levels =~= Seq::empty());
        assert(r@.member_table_ids =~= Seq::empty());
    }
    r
}

/// The first key of a table file; empty where the file states no range.
pub open spec fn sst_left_key(sst: SstableInfoView) -> Seq<u8> {
    match sst.key_range {
        Some(r) => r.left,
        None => Seq::empty(),
    }
}

/// Where `sst` enters `ssts`: before the first file, from the start, whose
/// first key is greater than its own; at the end where there is none.
pub open spec fn insert_position(ssts: Seq<SstableInfoView>, sst: SstableInfoView) -> int
    decreases ssts.len(),
{
    if ssts.len() == 0 || !bytes_le(sst_left_key(ssts[0]), sst_left_key(sst)) {
        0
    } else {
        1 + insert_position(ssts.drop_first(), sst)
    }
}

/// `ssts` with `sst` entered at its place.
pub open spec fn ssts_with(ssts: Seq<SstableInfoView>, sst: SstableInfoView) -> Seq<
    SstableInfoView,
> {
    ssts.insert(insert_position(ssts, sst), sst)
}

/// `ssts` with the files of `entering` entered one after the other.
pub open spec fn ssts_with_all(
    ssts: Seq<SstableInfoView>,
    entering: Seq<SstableInfoView>,
) -> Seq<SstableInfoView>
    decreases entering.len(),
{
    if entering.len() == 0 {
        ssts
    } else {
        ssts_with(ssts_with_all(ssts, entering.drop_last()), entering.last())
    }
}

/// `ssts` without the files whose ids are in `removed`.
pub open spec fn ssts_without(ssts: Seq<SstableInfoView>, removed: Set<HummockSstableId>) -> Seq<
    SstableInfoView,
> {
    ssts.filter(|s: SstableInfoView| !removed.contains(s.sst_id))
}

fn left_key(sst: &SstableInfo) -> (r: &[u8])
    ensures
        r@ == sst_left_key(sst@),
{
    match &sst.key_range {
        Some(range) => range.left.as_slice(),
        None => &[],
    }
}

/// Enters `sst` into `table_infos` before the first file whose first key
/// is greater than its own.
pub fn insert_sst(table_infos: &mut Vec<SstableInfo>, sst: SstableInfo)
    ensures
        ssts_view(final(table_infos)@) == ssts_with(ssts_view(old(table_infos)@), sst@),
{
    let ghost all = ssts_view(table_infos@);
    let mut i: usize = 0;
    proof {
        assert(all.skip(0) =~= all);
    }
    while i < table_infos.len() && bytes_le_exec(left_key(&table_infos[i]), left_key(&sst))
        invariant
            i <= table_infos.len(),
            all == ssts_view(table_infos@),
            insert_position(all, sst@) == i + insert_position(all.skip(i as int), sst@),
        decreases table_infos.len() - i,
    {
        proof {
            assert(all.skip(i as int)[0] == table_infos@[i as int]@);
            assert(all.skip(i as int).drop_first() =~= all.skip(i + 1));
        }
        i = i + 1;
    }
    proof {
        if i < table_infos.len() {
            assert(all.skip(i as int)[0] == table_infos@[i as int]@);
        }
    }
    table_infos.insert(i, sst);
    proof {
        assert(ssts_view(table_infos@) =~= all.insert(i as int, sst@));
    }
}

/// Enters the files of `insert_table_infos` into `level`, each before the
/// first file whose first key is greater than its own.
pub fn level_insert_ssts(level: &mut Level, insert_table_infos: Vec<SstableInfo>)
    ensures
        final(level)@ == (LevelView {
            table_infos: ssts_with_all(old(level)@.table_infos, ssts_view(insert_table_infos@)),
            ..old(level)@
        }),
{
    let ghost before = level@.table_infos;
    let ghost entering = ssts_view(insert_table_infos@);
    proof {
        assert(entering.take(0) =~= Seq::empty());
    }
    for sst in it: insert_table_infos
        invariant
            it.seq() == insert_table_infos@,
            entering == ssts_view(insert_table_infos@),
            level@ == (LevelView {
                table_infos: ssts_with_all(before, entering.take(it.index() as int)),
                ..old(level)@
            }),
    {
        proof {
            let k = it.index() as int;
            assert(entering.take(k + 1).drop_last() =~= entering.take(k));
            assert(entering.take(k + 1).last() == sst@);
        }
        insert_sst(&mut level.table_infos, sst);
    }
    proof {
        assert(entering.take(entering.len() as int) =~= entering);
    }
}

/// Takes the files whose ids are in `delete_sst_ids_set` out of `level`;
/// says whether it took any.
pub fn level_delete_ssts(level: &mut Level, delete_sst_ids_set: &HashSet<HummockSstableId>) -> (changed:
    bool)
    ensures
        final(level)@ == (LevelView {
            table_infos: ssts_without(old(level)@.table_infos, delete_sst_ids_set@),
            ..old(level)@
        }),
        changed == (final(level)@.table_infos.len() < old(level)@.table_infos.len()),
{
    broadcast use vstd::std_specs::hash::group_hash_axioms;

    let ghost all = level@.table_infos;
    let ghost removed = delete_sst_ids_set@;
    let ghost keep = |s: SstableInfoView| !removed.contains(s.sst_id);
    let mut table_infos: Vec<SstableInfo> = Vec::new();
    std::mem::swap(&mut level.table_infos, &mut table_infos);
    let len_before = table_infos.len();
    let ghost given = table_infos@;
    let mut kept: Vec<SstableInfo> = Vec::new();
    proof {
        reveal(Seq::filter);
        assert(all.take(0) =~= Seq::empty());
        assert(ssts_view(kept@) =~= all.take(0).filter(keep));
    }
    for sst in it: table_infos
        invariant
            it.seq() == given,
            all == ssts_view(given),
            removed == delete_sst_ids_set@,
            keep == (|s: SstableInfoView| !removed.contains(s.sst_id)),
            ssts_view(kept@) == all.take(it.index() as int).filter(keep),
    {
        let ghost before = ssts_view(kept@);
        proof {
            reveal(Seq::filter);
            let k = it.index() as int;
            assert(all.take(k + 1).drop_last() =~= all.take(k));
            assert(all.take(k + 1).last() == sst@);
        }
        if !delete_sst_ids_set.contains(&sst.sst_id) {
            kept.push(sst);
            proof {
                assert(ssts_view(kept@) =~= before.push(sst@));
            }
        }
    }
    proof {
        assert(all.take(all.len() as int) =~= all);
        all.lemma_filter_len(keep);
    }
    let changed = kept.len() < len_before;
    level.table_infos = kept;
    changed
}

/// A sub-level of level 0 with the given files.
pub open spec fn new_sub_level_view(
    sub_level_id: u64,
    level_type: LevelType,
    table_infos: Seq<SstableInfoView>,
) -> LevelView {
    LevelView { level_idx: 0, level_type, table_infos, sub_level_id }
}

/// A sub-level of level 0 with the given files.
pub fn new_sub_level(sub_level_id: u64, level_type: LevelType, table_infos: Vec<SstableInfo>) -> (r:
    Level)
    ensures
        r@ == new_sub_level_view(sub_level_id, level_type, ssts_view(table_infos@)),
{
    Level { level_idx: 0, level_type, table_infos, sub_level_id }
}

/// Whether a sub-level `insert_sub_level_id` can enter `l0` as its newest:
/// it is newer than every sub-level there is. The id `u64::MAX` stands
/// for "no sub-level" and can always be given.
pub open spec fn can_insert_new_sub_level(l0: OverlappingLevelView, insert_sub_level_id: u64) -> bool {
    insert_sub_level_id == u64::MAX || l0.sub_levels.len() == 0 || l0.sub_levels.last().sub_level_id
        < insert_sub_level_id
}

/// `l0` with a newest sub-level `insert_sub_level_id` that holds
/// `insert_table_infos`; `l0` itself for the id `u64::MAX`.
pub open spec fn with_new_sub_level(
    l0: OverlappingLevelView,
    insert_sub_level_id: u64,
    level_type: LevelType,
    insert_table_infos: Seq<SstableInfoView>,
) -> OverlappingLevelView {
    if insert_sub_level_id == u64::MAX {
        l0
    } else {
        OverlappingLevelView {
            sub_levels: l0.sub_levels.push(
                new_sub_level_view(insert_sub_level_id, level_type, insert_table_infos),
            ),
        }
    }
}

/// Puts a newest sub-level `insert_sub_level_id` with `insert_table_infos`
/// into `l0`. Does nothing, and says so, where a sub-level of `l0` is as
/// new or newer.
pub fn insert_new_sub_level(
    l0: &mut OverlappingLevel,
    insert_sub_level_id: u64,
    level_type: LevelType,
    insert_table_infos: Vec<SstableInfo>,
) -> (done: bool)
    ensures
        done == can_insert_new_sub_level(old(l0)@, insert_sub_level_id),
        done ==> final(l0)@ == with_new_sub_level(
            old(l0)@,
            insert_sub_level_id,
            level_type,
            ssts_view(insert_table_infos@),
        ),
        !done ==> final(l0)@ == old(l0)@,
{
    if insert_sub_level_id == u64::MAX {
        return true;
    }
    let n = l0.sub_levels.len();
    if n > 0 {
        proof {
            assert(l0@.sub_levels.last() == l0.sub_levels@[n - 1]@);
        }
        if l0.sub_levels[n - 1].sub_level_id >= insert_sub_level_id {
            return false;
        }
    }
    let ghost before = l0@.sub_levels;
    let level = new_sub_level(insert_sub_level_id, level_type, insert_table_infos);
    l0.sub_levels.push(level);
    proof {
        assert(l0@.sub_levels =~= before.push(level@));
    }
    true
}

/// The index of the first sub-level of `sub_levels` whose id is not below
/// `sub_level_id`.
pub open spec fn sub_level_position(sub_levels: Seq<LevelView>, sub_level_id: u64) -> int
    decreases sub_levels.len(),
{
    if sub_levels.len() == 0 || sub_levels[0].sub_level_id >= sub_level_id {
        0
    } else {
        1 + sub_level_position(sub_levels.drop_first(), sub_level_id)
    }
}

/// Whether `l0` has a sub-level `sub_level_id` where the sub-levels that
/// are older end.
pub open spec fn has_sub_level(l0: OverlappingLevelView, sub_level_id: u64) -> bool {
    let index = sub_level_position(l0.sub_levels, sub_level_id);
    0 <= index < l0.sub_levels.len() && l0.sub_levels[index].sub_level_id == sub_level_id
}

/// `l0` with `insert_table_infos` entered into its sub-level
/// `sub_level_id`.
pub open spec fn with_ssts_in_sub_level(
    l0: OverlappingLevelView,
    sub_level_id: u64,
    insert_table_infos: Seq<SstableInfoView>,
) -> OverlappingLevelView {
    let index = sub_level_position(l0.sub_levels, sub_level_id);
    OverlappingLevelView {
        sub_levels: l0.sub_levels.update(
            index,
            LevelView {
                table_infos: ssts_with_all(l0.sub_levels[index].table_infos, insert_table_infos),
                ..l0.sub_levels[index]
            },
        ),
    }
}

/// Enters `insert_table_infos` into the sub-level `sub_level_id` of `l0`.
/// Does nothing, and says so, where `l0` has no such sub-level.
pub fn add_ssts_to_sub_level(
    l0: &mut OverlappingLevel,
    sub_level_id: u64,
    insert_table_infos: Vec<SstableInfo>,
) -> (done: bool)
    ensures
        done == has_sub_level(old(l0)@, sub_level_id),
        done ==> final(l0)@ == with_ssts_in_sub_level(
            old(l0)@,
            sub_level_id,
            ssts_view(insert_table_infos@),
        ),
        !done ==> final(l0)@ == old(l0)@,
{
    let ghost subs = l0@.sub_levels;
    let mut i: usize = 0;
    proof {
        assert(subs.skip(0) =~= subs);
    }
    while i < l0.sub_levels.len() && l0.sub_levels[i].sub_level_id < sub_level_id
        invariant
            i <= l0.sub_levels.len(),
            subs == levels_view(l0.sub_levels@),
            sub_level_position(subs, sub_level_id) == i + sub_level_position(
                subs.skip(i as int),
                sub_level_id,
            ),
        decreases l0.sub_levels.len() - i,
    {
        proof {
            assert(subs.skip(i as int)[0] == l0.sub_levels@[i as int]@);
            assert(subs.skip(i as int).drop_first() =~= subs.skip(i + 1));
        }
        i = i + 1;
    }
    proof {
        if i < l0.sub_levels.len() {
            assert(subs.skip(i as int)[0] == l0.sub_levels@[i as int]@);
        }
    }
    if i < l0.sub_levels.len() && l0.sub_levels[i].sub_level_id == sub_level_id {
        proof {
            assert(subs[i as int] == l0.sub_levels@[i as int]@);
        }
        level_insert_ssts(&mut l0.sub_levels[i], insert_table_infos);
        proof {
            assert(l0@.sub_levels =~= subs.update(i as int, l0.sub_levels@[i as int]@));
        }
        true
    } else {
        proof {
            if i < l0.sub_levels.len() {
                assert(subs[i as int] == l0.sub_levels@[i as int]@);
            }
        }
        false
    }
}

} // verus!
