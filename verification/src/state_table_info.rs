//! Which compaction group each table belongs to, and up to which epochs
//! each table is committed and readable.

use vstd::prelude::*;
use vstd::std_specs::iter::IteratorSpec;
use std::collections::{BTreeSet, HashMap, HashSet};
use crate::epoch::HummockEpoch;
use crate::key::TableId;

verus! {

/// Identifies a compaction group.
pub type CompactionGroupId = u64;

/// What a version records of one table.
#[derive(Debug, Clone, Copy, PartialEq, Eq, Structural)]
pub struct StateTableInfo {
    pub committed_epoch: HummockEpoch,
    pub safe_epoch: HummockEpoch,
    pub compaction_group_id: CompactionGroupId,
}

/// What a version delta sets for one table.
#[derive(Debug, Clone, Copy, PartialEq, Eq, Structural)]
pub struct StateTableInfoDelta {
    pub committed_epoch: HummockEpoch,
    pub safe_epoch: HummockEpoch,
    pub compaction_group_id: CompactionGroupId,
}

impl StateTableInfoDelta {
    /// The record that the delta sets.
    pub open spec fn info(self) -> StateTableInfo {
        StateTableInfo {
            committed_epoch: self.committed_epoch,
            safe_epoch: self.safe_epoch,
            compaction_group_id: self.compaction_group_id,
        }
    }
}

/// The tables of each compaction group according to `info`: a group is
/// listed if and only if it has a table.
pub open spec fn member_tables_of(info: Map<TableId, StateTableInfo>) -> Map<
    CompactionGroupId,
    Set<TableId>,
> {
    Map::new(
        |g: CompactionGroupId|
            exists|t: TableId| #[trigger] info.contains_key(t) && info[t].compaction_group_id == g,
        |g: CompactionGroupId|
            Set::new(|t: TableId| info.contains_key(t) && info[t].compaction_group_id == g),
    )
}

/// The sets of a reverse index, each by its view.
pub open spec fn members_view(index: Map<CompactionGroupId, BTreeSet<TableId>>) -> Map<
    CompactionGroupId,
    Set<TableId>,
> {
    index.map_values(|s: BTreeSet<TableId>| s@)
}

/// `index` without table `t` in group `g`; without the group if that was
/// its last table.
pub open spec fn without_member(
    index: Map<CompactionGroupId, Set<TableId>>,
    g: CompactionGroupId,
    t: TableId,
) -> Map<CompactionGroupId, Set<TableId>> {
    if index[g].remove(t).is_empty() {
        index.remove(g)
    } else {
        index.insert(g, index[g].remove(t))
    }
}

/// `index` with table `t` in group `g`.
pub open spec fn with_member(
    index: Map<CompactionGroupId, Set<TableId>>,
    g: CompactionGroupId,
    t: TableId,
) -> Map<CompactionGroupId, Set<TableId>> {
    if index.contains_key(g) {
        index.insert(g, index[g].insert(t))
    } else {
        index.insert(g, Set::empty().insert(t))
    }
}

/// Taking a table out of the records takes it out of its group.
pub proof fn lemma_member_tables_remove(info: Map<TableId, StateTableInfo>, t: TableId)
    requires
        info.contains_key(t),
    ensures
        member_tables_of(info.remove(t)) == without_member(
            member_tables_of(info),
            info[t].compaction_group_id,
            t,
        ),
{
    let g = info[t].compaction_group_id;
    let before = member_tables_of(info);
    let after = member_tables_of(info.remove(t));
    let goal = without_member(before, g, t);
    assert(before.contains_key(g));
    assert forall|h: CompactionGroupId| after.contains_key(h) == goal.contains_key(h) by {
        if after.contains_key(h) {
            let u = choose|u: TableId|
                #[trigger] info.remove(t).contains_key(u) && info.remove(t)[u].compaction_group_id
                    == h;
            assert(info.contains_key(u) && info[u].compaction_group_id == h);
            if h == g {
                assert(before[g].remove(t).contains(u));
            }
        }
        if goal.contains_key(h) {
            if h == g {
                assert(!before[g].remove(t).is_empty());
                let u = choose|u: TableId| before[g].remove(t).contains(u);
                assert(before[g].remove(t).contains(u)) by {
                    if forall|u: TableId| !before[g].remove(t).contains(u) {
                        assert(before[g].remove(t) =~= Set::empty());
                    }
                }
                assert(info.remove(t).contains_key(u));
            } else {
                let u = choose|u: TableId|
                    #[trigger] info.contains_key(u) && info[u].compaction_group_id == h;
                assert(info.remove(t).contains_key(u));
            }
        }
    }
    assert forall|h: CompactionGroupId| after.contains_key(h) implies after[h] =~= goal[h] by {}
    assert(after =~= goal);
}

/// Recording a table that had no record puts it into its group.
pub proof fn lemma_member_tables_insert(
    info: Map<TableId, StateTableInfo>,
    t: TableId,
    new_info: StateTableInfo,
)
    requires
        !info.contains_key(t),
    ensures
        member_tables_of(info.insert(t, new_info)) == with_member(
            member_tables_of(info),
            new_info.compaction_group_id,
            t,
        ),
{
    let g = new_info.compaction_group_id;
    let before = member_tables_of(info);
    let after = member_tables_of(info.insert(t, new_info));
    let goal = with_member(before, g, t);
    assert forall|h: CompactionGroupId| after.contains_key(h) == goal.contains_key(h) by {
        if after.contains_key(h) {
            let u = choose|u: TableId|
                #[trigger] info.insert(t, new_info).contains_key(u) && info.insert(
                    t,
                    new_info,
                )[u].compaction_group_id == h;
            if u != t {
                assert(info.contains_key(u) && info[u].compaction_group_id == h);
            }
        }
        if goal.contains_key(h) {
            if h == g {
                assert(info.insert(t, new_info).contains_key(t));
            } else {
                let u = choose|u: TableId|
                    #[trigger] info.contains_key(u) && info[u].compaction_group_id == h;
                assert(info.insert(t, new_info).contains_key(u));
            }
        }
    }
    assert forall|h: CompactionGroupId| after.contains_key(h) implies after[h] =~= goal[h] by {}
    assert(after =~= goal);
}

/// Replacing a table's record without changing its group leaves the
/// groups as they are.
pub proof fn lemma_member_tables_update(
    info: Map<TableId, StateTableInfo>,
    t: TableId,
    new_info: StateTableInfo,
)
    requires
        info.contains_key(t),
        info[t].compaction_group_id == new_info.compaction_group_id,
    ensures
        member_tables_of(info.insert(t, new_info)) == member_tables_of(info),
{
    let before = member_tables_of(info);
    let after = member_tables_of(info.insert(t, new_info));
    assert forall|h: CompactionGroupId| after.contains_key(h) == before.contains_key(h) by {
        if after.contains_key(h) {
            let u = choose|u: TableId|
                #[trigger] info.insert(t, new_info).contains_key(u) && info.insert(
                    t,
                    new_info,
                )[u].compaction_group_id == h;
            assert(info.contains_key(u) && info[u].compaction_group_id == h);
        }
        if before.contains_key(h) {
            let u = choose|u: TableId|
                #[trigger] info.contains_key(u) && info[u].compaction_group_id == h;
            assert(info.insert(t, new_info).contains_key(u));
        }
    }
    assert forall|h: CompactionGroupId| after.contains_key(h) implies after[h] =~= before[h] by {}
    assert(after =~= before);
}

/// A table's record put in place of one in another group takes the table
/// out of the old group and into the new one.
pub proof fn lemma_member_tables_move(
    info: Map<TableId, StateTableInfo>,
    t: TableId,
    new_info: StateTableInfo,
)
    requires
        info.contains_key(t),
    ensures
        member_tables_of(info.insert(t, new_info)) == with_member(
            without_member(member_tables_of(info), info[t].compaction_group_id, t),
            new_info.compaction_group_id,
            t,
        ),
{
    lemma_member_tables_remove(info, t);
    lemma_member_tables_insert(info.remove(t), t, new_info);
    assert(info.remove(t).insert(t, new_info) =~= info.insert(t, new_info));
}

/// Takes table `table_id` out of group `compaction_group_id` of a reverse
/// index, and the group with it if that was its last table.
fn remove_table_from_compaction_group(
    compaction_group_member_tables: &mut HashMap<CompactionGroupId, BTreeSet<TableId>>,
    compaction_group_id: CompactionGroupId,
    table_id: TableId,
)
    requires
        old(compaction_group_member_tables)@.contains_key(compaction_group_id),
    ensures
        members_view(final(compaction_group_member_tables)@) == without_member(
            members_view(old(compaction_group_member_tables)@),
            compaction_group_id,
            table_id,
        ),
{
    broadcast use vstd::std_specs::hash::group_hash_axioms;
    broadcast use vstd::std_specs::btree::group_btree_axioms;

    let ghost before = compaction_group_member_tables@;
    match compaction_group_member_tables.remove(&compaction_group_id) {
        Some(mut member_tables) => {
            let ghost bucket = member_tables@;
            member_tables.remove(&table_id);
            if !member_tables.is_empty() {
                compaction_group_member_tables.insert(compaction_group_id, member_tables);
            }
            proof {
                assert(members_view(before)[compaction_group_id] == bucket);
                assert(members_view(compaction_group_member_tables@) =~= without_member(
                    members_view(before),
                    compaction_group_id,
                    table_id,
                ));
            }
        },
        None => {},
    }
}

/// Puts table `table_id` into group `compaction_group_id` of a reverse
/// index.
fn add_table_to_compaction_group(
    compaction_group_member_tables: &mut HashMap<CompactionGroupId, BTreeSet<TableId>>,
    compaction_group_id: CompactionGroupId,
    table_id: TableId,
)
    ensures
        members_view(final(compaction_group_member_tables)@) == with_member(
            members_view(old(compaction_group_member_tables)@),
            compaction_group_id,
            table_id,
        ),
{
    broadcast use vstd::std_specs::hash::group_hash_axioms;
    broadcast use vstd::std_specs::btree::group_btree_axioms;

    let ghost before = compaction_group_member_tables@;
    let mut member_tables = match compaction_group_member_tables.remove(&compaction_group_id) {
        Some(member_tables) => member_tables,
        None => BTreeSet::new(),
    };
    member_tables.insert(table_id);
    compaction_group_member_tables.insert(compaction_group_id, member_tables);
    proof {
        assert(members_view(compaction_group_member_tables@) =~= with_member(
            members_view(before),
            compaction_group_id,
            table_id,
        ));
    }
}

/// The records after a delta: those of `removed` are gone, those that
/// `delta` sets for other tables are in place, the rest is as it was.
pub open spec fn applied_info(
    info: Map<TableId, StateTableInfo>,
    delta: Map<TableId, StateTableInfoDelta>,
    removed: Set<TableId>,
) -> Map<TableId, StateTableInfo> {
    Map::new(
        |t: TableId| !removed.contains(t) && (info.contains_key(t) || delta.contains_key(t)),
        |t: TableId|
            if delta.contains_key(t) {
                delta[t].info()
            } else {
                info[t]
            },
    )
}

/// The tables that a delta touches, each with the record it had before,
/// if it had one: the recorded tables among `removed`, and the tables
/// for which `delta` sets a record.
pub open spec fn changed_tables(
    info: Map<TableId, StateTableInfo>,
    delta: Map<TableId, StateTableInfoDelta>,
    removed: Set<TableId>,
) -> Map<TableId, Option<StateTableInfo>> {
    Map::new(
        |t: TableId|
            (removed.contains(t) && info.contains_key(t)) || (!removed.contains(t)
                && delta.contains_key(t)),
        |t: TableId|
            if info.contains_key(t) {
                Some(info[t])
            } else {
                None
            },
    )
}

/// Whether `delta` would take an epoch of a recorded table back.
pub open spec fn delta_regresses(
    info: Map<TableId, StateTableInfo>,
    delta: Map<TableId, StateTableInfoDelta>,
    removed: Set<TableId>,
) -> bool {
    exists|t: TableId|
        #![trigger delta.contains_key(t)]
        delta.contains_key(t) && !removed.contains(t) && info.contains_key(t) && (
        delta[t].safe_epoch < info[t].safe_epoch || delta[t].committed_epoch
            < info[t].committed_epoch)
}

/// The records of the tables of a version, with the tables of each
/// compaction group as an index over them.
#[derive(Debug, PartialEq)]
pub struct HummockVersionStateTableInfo {
    state_table_info: HashMap<TableId, StateTableInfo>,
    // in memory index
    compaction_group_member_tables: HashMap<CompactionGroupId, BTreeSet<TableId>>,
}

impl View for HummockVersionStateTableInfo {
    type V = Map<TableId, StateTableInfo>;

    closed spec fn view(&self) -> Map<TableId, StateTableInfo> {
        self.state_table_info@
    }
}

impl Clone for HummockVersionStateTableInfo {
    fn clone(&self) -> (r: Self)
        ensures
            r@ == self@,
            r.member_tables() == self.member_tables(),
    {
        Self {
            state_table_info: self.state_table_info.clone(),
            compaction_group_member_tables: self.compaction_group_member_tables.clone(),
        }
    }
}

impl HummockVersionStateTableInfo {
    /// The tables of each compaction group as the index holds them.
    pub closed spec fn member_tables(&self) -> Map<CompactionGroupId, Set<TableId>> {
        members_view(self.compaction_group_member_tables@)
    }

    /// The index is what the records say.
    pub open spec fn wf(&self) -> bool {
        self.member_tables() == member_tables_of(self@)
    }

    /// No records.
    pub fn empty() -> (r: Self)
        ensures
            r.wf(),
            r@ == Map::<TableId, StateTableInfo>::empty(),
    {
        let r = Self {
            state_table_info: HashMap::new(),
            compaction_group_member_tables: HashMap::new(),
        };
        proof {
            assert(r.member_tables() =~= member_tables_of(r@));
        }
        r
    }

    /// The tables of each compaction group according to the records.
    fn build_compaction_group_member_tables(
        state_table_info: &HashMap<TableId, StateTableInfo>,
    ) -> (ret: HashMap<CompactionGroupId, BTreeSet<TableId>>)
        ensures
            members_view(ret@) == member_tables_of(state_table_info@),
    {
        broadcast use vstd::std_specs::hash::group_hash_axioms;

        let mut ret: HashMap<CompactionGroupId, BTreeSet<TableId>> = HashMap::new();
        let ghost mut done: Map<TableId, StateTableInfo> = Map::empty();
        let iter = state_table_info.iter();
        let ghost all = iter.remaining();
        proof {
            assert(members_view(ret@) =~= member_tables_of(done));
        }
        for entry in it: iter
            invariant
                it.seq() == all,
                all.no_duplicates(),
                forall|i: int|
                    0 <= i < all.len() ==> state_table_info@.contains_key(*(#[trigger] all[i]).0)
                        && state_table_info@[*all[i].0] == *all[i].1,
                forall|k: TableId| #[trigger]
                    state_table_info@.contains_key(k) ==> all.contains(
                        (&k, &state_table_info@[k]),
                    ),
                forall|t: TableId|
                    done.contains_key(t) <==> exists|j: int|
                        0 <= j < it.index() && *(#[trigger] all[j]).0 == t,
                forall|t: TableId| #[trigger]
                    done.contains_key(t) ==> done[t] == state_table_info@[t],
                members_view(ret@) == member_tables_of(done),
        {
            let (table_id, info) = entry;
            proof {
                let k = it.index() as int;
                assert(*all[k].0 == *table_id);
                if done.contains_key(*table_id) {
                    let j = choose|j: int| 0 <= j < k && *(#[trigger] all[j]).0 == *table_id;
                    assert(all[j] == all[k]);
                }
                lemma_member_tables_insert(done, *table_id, *info);
            }
            add_table_to_compaction_group(&mut ret, info.compaction_group_id, *table_id);
            proof {
                done = done.insert(*table_id, *info);
            }
        }
        proof {
            assert forall|t: TableId| state_table_info@.contains_key(t) implies done.contains_key(
                t,
            ) by {
                let j = all.index_of((&t, &state_table_info@[t]));
            }
            assert(done =~= state_table_info@);
        }
        ret
    }

    /// For each table its compaction group.
    pub fn build_table_compaction_group_id(&self) -> (r: HashMap<TableId, CompactionGroupId>)
        ensures
            r@ == self@.map_values(|info: StateTableInfo| info.compaction_group_id),
    {
        broadcast use vstd::std_specs::hash::group_hash_axioms;

        let mut ret: HashMap<TableId, CompactionGroupId> = HashMap::new();
        let iter = self.state_table_info.iter();
        let ghost all = iter.remaining();
        for entry in it: iter
            invariant
                it.seq() == all,
                forall|i: int|
                    0 <= i < all.len() ==> self.state_table_info@.contains_key(
                        *(#[trigger] all[i]).0,
                    ) && self.state_table_info@[*all[i].0] == *all[i].1,
                forall|k: TableId| #[trigger]
                    self.state_table_info@.contains_key(k) ==> all.contains(
                        (&k, &self.state_table_info@[k]),
                    ),
                forall|t: TableId|
                    ret@.contains_key(t) <==> exists|j: int|
                        0 <= j < it.index() && *(#[trigger] all[j]).0 == t,
                forall|t: TableId| #[trigger]
                    ret@.contains_key(t) ==> ret@[t]
                        == self.state_table_info@[t].compaction_group_id,
        {
            let (table_id, info) = entry;
            proof {
                assert(*all[it.index() as int].0 == *table_id);
            }
            ret.insert(*table_id, info.compaction_group_id);
        }
        proof {
            assert forall|t: TableId| self.state_table_info@.contains_key(
                t,
            ) implies ret@.contains_key(t) by {
                let j = all.index_of((&t, &self.state_table_info@[t]));
            }
            assert(ret@ =~= self@.map_values(|info: StateTableInfo| info.compaction_group_id));
        }
        ret
    }

    /// The records as they were stored, with their index.
    pub fn from_protobuf(state_table_info: &HashMap<TableId, StateTableInfo>) -> (r: Self)
        ensures
            r.wf(),
            r@ == state_table_info@,
    {
        let state_table_info = state_table_info.clone();
        let compaction_group_member_tables = Self::build_compaction_group_member_tables(
            &state_table_info,
        );
        Self { state_table_info, compaction_group_member_tables }
    }

    /// The records as they are stored.
    pub fn to_protobuf(&self) -> (r: HashMap<TableId, StateTableInfo>)
        ensures
            r@ == self@,
    {
        self.state_table_info.clone()
    }

    /// Whether `delta` would take an epoch of a recorded table back.
    pub fn regresses(
        &self,
        delta: &HashMap<TableId, StateTableInfoDelta>,
        removed_table_id: &HashSet<TableId>,
    ) -> (r: bool)
        ensures
            r == delta_regresses(self@, delta@, removed_table_id@),
    {
        broadcast use vstd::std_specs::hash::group_hash_axioms;

        let iter = delta.iter();
        let ghost all = iter.remaining();
        for entry in it: iter
            invariant
                it.seq() == all,
                forall|i: int|
                    0 <= i < all.len() ==> delta@.contains_key(*(#[trigger] all[i]).0)
                        && delta@[*all[i].0] == *all[i].1,
                forall|k: TableId| #[trigger]
                    delta@.contains_key(k) ==> all.contains((&k, &delta@[k])),
                forall|j: int|
                    0 <= j < it.index() ==> !({
                        let t = *(#[trigger] all[j]).0;
                        !removed_table_id@.contains(t) && self@.contains_key(t) && (
                        delta@[t].safe_epoch < self@[t].safe_epoch || delta@[t].committed_epoch
                            < self@[t].committed_epoch)
                    }),
        {
            let (table_id, d) = entry;
            proof {
                assert(*all[it.index() as int].0 == *table_id);
            }
            if !removed_table_id.contains(table_id) {
                if let Some(prev_info) = self.state_table_info.get(table_id) {
                    if d.safe_epoch < prev_info.safe_epoch || d.committed_epoch
                        < prev_info.committed_epoch {
                        return true;
                    }
                }
            }
        }
        proof {
            assert forall|t: TableId|
                #![trigger delta@.contains_key(t)]
                delta@.contains_key(t) implies !(!removed_table_id@.contains(t)
                && self@.contains_key(t) && (delta@[t].safe_epoch < self@[t].safe_epoch
                || delta@[t].committed_epoch < self@[t].committed_epoch)) by {
                let j = all.index_of((&t, &delta@[t]));
                assert(*all[j].0 == t);
            }
        }
        false
    }

    /// The records of the tables.
    pub fn info(&self) -> (r: &HashMap<TableId, StateTableInfo>)
        ensures
            r@ == self@,
    {
        &self.state_table_info
    }

    /// The tables of compaction group `compaction_group_id`; none where
    /// the group has no table.
    pub fn compaction_group_member_table_ids(&self, compaction_group_id: CompactionGroupId) -> (r:
        BTreeSet<TableId>)
        ensures
            r@ == if self.member_tables().contains_key(compaction_group_id) {
                self.member_tables()[compaction_group_id]
            } else {
                Set::<TableId>::empty()
            },
    {
        broadcast use vstd::std_specs::hash::group_hash_axioms;

        match self.compaction_group_member_tables.get(&compaction_group_id) {
            Some(member_tables) => member_tables.clone(),
            None => BTreeSet::new(),
        }
    }

    /// The tables of each compaction group.
    pub fn compaction_group_member_tables(&self) -> (r: &HashMap<
        CompactionGroupId,
        BTreeSet<TableId>,
    >)
        ensures
            members_view(r@) == self.member_tables(),
    {
        &self.compaction_group_member_tables
    }
}

impl HummockVersionStateTableInfo {
    /// Applies a delta: removes the records of `removed_table_id`, and
    /// puts in place the records that `delta` sets for other tables.
    /// Returns the tables touched, each with the record it had before.
    pub fn apply_delta(
        &mut self,
        delta: &HashMap<TableId, StateTableInfoDelta>,
        removed_table_id: &HashSet<TableId>,
    ) -> (changed_table: HashMap<TableId, Option<StateTableInfo>>)
        requires
            old(self).wf(),
            !delta_regresses(old(self)@, delta@, removed_table_id@),
        ensures
            final(self).wf(),
            final(self)@ == applied_info(old(self)@, delta@, removed_table_id@),
            changed_table@ == changed_tables(old(self)@, delta@, removed_table_id@),
    {
        broadcast use vstd::std_specs::hash::group_hash_axioms;

        let ghost before = self@;
        let ghost none = Map::<TableId, StateTableInfoDelta>::empty();
        let mut changed_table: HashMap<TableId, Option<StateTableInfo>> = HashMap::new();
        let ghost mut gone: Set<TableId> = Set::empty();
        let removed_iter = removed_table_id.iter();
        let ghost removed_all = removed_iter.remaining();
        proof {
            assert(self@ =~= applied_info(before, none, gone));
            assert(changed_table@ =~= changed_tables(before, none, gone));
        }
        for table_id in it: removed_iter
            invariant
                it.seq() == removed_all,
                removed_all.unref().to_set() == removed_table_id@,
                none == Map::<TableId, StateTableInfoDelta>::empty(),
                forall|t: TableId|
                    gone.contains(t) <==> exists|j: int|
                        0 <= j < it.index() && *(#[trigger] removed_all[j]) == t,
                self.wf(),
                self@ == applied_info(before, none, gone),
                changed_table@ == changed_tables(before, none, gone),
        {
            let ghost info_now = self@;
            let ghost gone_next = gone.insert(*table_id);
            proof {
                assert(*removed_all[it.index() as int] == *table_id);
            }
            match self.state_table_info.remove(table_id) {
                Some(prev_info) => {
                    proof {
                        lemma_member_tables_remove(info_now, *table_id);
                        assert(self.member_tables().contains_key(prev_info.compaction_group_id));
                    }
                    remove_table_from_compaction_group(
                        &mut self.compaction_group_member_tables,
                        prev_info.compaction_group_id,
                        *table_id,
                    );
                    changed_table.insert(*table_id, Some(prev_info));
                },
                None => {
                    proof {
                        assert(self@ =~= info_now);
                    }
                },
            }
            proof {
                assert(self@ =~= applied_info(before, none, gone_next));
                assert(changed_table@ =~= changed_tables(before, none, gone_next));
                gone = gone_next;
            }
        }
        proof {
            assert(gone =~= removed_table_id@) by {
                assert forall|t: TableId| removed_table_id@.contains(t) implies gone.contains(
                    t,
                ) by {
                    assert(removed_all.unref().contains(t));
                    let j = choose|j: int|
                        0 <= j < removed_all.unref().len() && removed_all.unref()[j] == t;
                    assert(*removed_all[j] == t);
                }
                assert forall|t: TableId| gone.contains(t) implies removed_table_id@.contains(
                    t,
                ) by {
                    let j = choose|j: int|
                        0 <= j < removed_all.len() && *(#[trigger] removed_all[j]) == t;
                    assert(removed_all.unref()[j] == t);
                }
            }
        }
        let ghost removed = removed_table_id@;
        let ghost mut done: Map<TableId, StateTableInfoDelta> = Map::empty();
        let iter = delta.iter();
        let ghost all = iter.remaining();
        for entry in it: iter
            invariant
                it.seq() == all,
                all.no_duplicates(),
                removed == removed_table_id@,
                !delta_regresses(before, delta@, removed),
                forall|i: int|
                    0 <= i < all.len() ==> delta@.contains_key(*(#[trigger] all[i]).0)
                        && delta@[*all[i].0] == *all[i].1,
                forall|k: TableId| #[trigger]
                    delta@.contains_key(k) ==> all.contains((&k, &delta@[k])),
                forall|t: TableId|
                    done.contains_key(t) <==> exists|j: int|
                        0 <= j < it.index() && *(#[trigger] all[j]).0 == t,
                forall|t: TableId| #[trigger] done.contains_key(t) ==> done[t] == delta@[t],
                self.wf(),
                self@ == applied_info(before, done, removed),
                changed_table@ == changed_tables(before, done, removed),
        {
            let (table_id, d) = entry;
            let ghost info_now = self@;
            let ghost done_next = done.insert(*table_id, *d);
            proof {
                let k = it.index() as int;
                assert(*all[k].0 == *table_id);
                if done.contains_key(*table_id) {
                    let j = choose|j: int| 0 <= j < k && *(#[trigger] all[j]).0 == *table_id;
                    assert(all[j] == all[k]);
                }
            }
            if removed_table_id.contains(table_id) {
                proof {
                    assert(self@ =~= applied_info(before, done_next, removed));
                    assert(changed_table@ =~= changed_tables(before, done_next, removed));
                    done = done_next;
                }
            } else {
            let new_info = StateTableInfo {
                committed_epoch: d.committed_epoch,
                safe_epoch: d.safe_epoch,
                compaction_group_id: d.compaction_group_id,
            };
            let prev = match self.state_table_info.get(table_id) {
                Some(prev_info) => Some(*prev_info),
                None => None,
            };
            match prev {
                Some(prev_info) => {
                    proof {
                        assert(before.contains_key(*table_id) && before[*table_id] == prev_info);
                    }
                    if prev_info.compaction_group_id != new_info.compaction_group_id {
                        // table moved to another compaction group
                        proof {
                            lemma_member_tables_move(info_now, *table_id, new_info);
                            assert(self.member_tables().contains_key(
                                prev_info.compaction_group_id,
                            ));
                        }
                        remove_table_from_compaction_group(
                            &mut self.compaction_group_member_tables,
                            prev_info.compaction_group_id,
                            *table_id,
                        );
                        add_table_to_compaction_group(
                            &mut self.compaction_group_member_tables,
                            new_info.compaction_group_id,
                            *table_id,
                        );
                    } else {
                        proof {
                            lemma_member_tables_update(info_now, *table_id, new_info);
                        }
                    }
                    self.state_table_info.insert(*table_id, new_info);
                    changed_table.insert(*table_id, Some(prev_info));
                },
                None => {
                    proof {
                        lemma_member_tables_insert(info_now, *table_id, new_info);
                    }
                    add_table_to_compaction_group(
                        &mut self.compaction_group_member_tables,
                        new_info.compaction_group_id,
                        *table_id,
                    );
                    self.state_table_info.insert(*table_id, new_info);
                    changed_table.insert(*table_id, None);
                },
            }
            proof {
                assert(self@ =~= applied_info(before, done_next, removed));
                assert(changed_table@ =~= changed_tables(before, done_next, removed));
                done = done_next;
            }
            }
        }
        proof {
            assert forall|t: TableId| delta@.contains_key(t) implies done.contains_key(t) by {
                let j = all.index_of((&t, &delta@[t]));
            }
            assert(done =~= delta@);
        }
        changed_table
    }
}

} // verus!
