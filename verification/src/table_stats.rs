//! Statistics of tables: how much a version holds of each.

use vstd::prelude::*;
use vstd::std_specs::iter::IteratorSpec;
use std::collections::HashMap;
use crate::key::TableId;
use crate::version::{HummockVersion, HummockVersionId};

verus! {

/// How much is held of one table. The counts wrap around where they
/// leave the range of an `i64`.
#[derive(Debug, Clone, Copy, PartialEq, Eq, Structural)]
pub struct TableStats {
    pub total_key_size: i64,
    pub total_value_size: i64,
    pub total_key_count: i64,
}

impl TableStats {
    /// Nothing held.
    pub open spec fn zero() -> TableStats {
        TableStats { total_key_size: 0, total_value_size: 0, total_key_count: 0 }
    }

    /// These statistics and `other`, added up.
    pub open spec fn plus(self, other: TableStats) -> TableStats {
        TableStats {
            total_key_size: self.total_key_size.wrapping_add(other.total_key_size),
            total_value_size: self.total_value_size.wrapping_add(other.total_value_size),
            total_key_count: self.total_key_count.wrapping_add(other.total_key_count),
        }
    }

    /// Adds `other` to these statistics.
    pub fn add(&mut self, other: &TableStats)
        ensures
            *final(self) == old(self).plus(*other),
    {
        self.total_key_size = self.total_key_size.wrapping_add(other.total_key_size);
        self.total_value_size = self.total_value_size.wrapping_add(other.total_value_size);
        self.total_key_count = self.total_key_count.wrapping_add(other.total_key_count);
    }
}

impl Default for TableStats {
    fn default() -> (r: Self)
        ensures
            r == TableStats::zero(),
    {
        TableStats { total_key_size: 0, total_value_size: 0, total_key_count: 0 }
    }
}

/// The statistics of the tables of a version.
pub type TableStatsMap = HashMap<TableId, TableStats>;

/// The statistics of table `t` in `stats`; nothing where it has none.
pub open spec fn stats_of(stats: Map<TableId, TableStats>, t: TableId) -> TableStats {
    if stats.contains_key(t) {
        stats[t]
    } else {
        TableStats::zero()
    }
}

/// `to` and `from`, added up table by table.
pub open spec fn stats_plus(
    to: Map<TableId, TableStats>,
    from: Map<TableId, TableStats>,
) -> Map<TableId, TableStats> {
    Map::new(
        |t: TableId| to.contains_key(t) || from.contains_key(t),
        |t: TableId| stats_of(to, t).plus(stats_of(from, t)),
    )
}

/// Adds the statistics `from` to `to`, table by table.
pub fn add_prost_table_stats_map(to: &mut TableStatsMap, from: &TableStatsMap)
    ensures
        final(to)@ == stats_plus(old(to)@, from@),
{
    broadcast use vstd::std_specs::hash::group_hash_axioms;

    let ghost before = to@;
    let ghost mut done: Set<TableId> = Set::empty();
    let iter = from.iter();
    let ghost all = iter.remaining();
    proof {
        assert(to@ =~= stats_plus(before, from@.restrict(done)));
    }
    for entry in it: iter
        invariant
            it.seq() == all,
            all.no_duplicates(),
            forall|i: int|
                0 <= i < all.len() ==> from@.contains_key(*(#[trigger] all[i]).0)
                    && from@[*all[i].0] == *all[i].1,
            forall|k: TableId| #[trigger]
                from@.contains_key(k) ==> all.contains((&k, &from@[k])),
            forall|t: TableId|
                done.contains(t) <==> exists|j: int|
                    0 <= j < it.index() && *(#[trigger] all[j]).0 == t,
            to@ == stats_plus(before, from@.restrict(done)),
    {
        let (table_id, table_stats) = entry;
        proof {
            let k = it.index() as int;
            assert(*all[k].0 == *table_id);
            if done.contains(*table_id) {
                let j = choose|j: int| 0 <= j < k && *(#[trigger] all[j]).0 == *table_id;
                assert(all[j] == all[k]);
            }
        }
        let mut sum = match to.get(table_id) {
            Some(held) => *held,
            None => TableStats::default(),
        };
        sum.add(table_stats);
        to.insert(*table_id, sum);
        proof {
            let next = from@.restrict(done.insert(*table_id));
            let prev = from@.restrict(done);
            assert(next.contains_key(*table_id) && next[*table_id] == from@[*table_id]);
            assert forall|h: TableId| h != *table_id implies next.contains_key(h)
                == prev.contains_key(h) && (next.contains_key(h) ==> next[h] == prev[h]) by {}
            assert(to@ =~= stats_plus(before, next));
            done = done.insert(*table_id);
        }
    }
    proof {
        assert forall|t: TableId| from@.contains_key(t) implies done.contains(t) by {
            let j = all.index_of((&t, &from@[t]));
            assert(*all[j].0 == t);
        }
        assert(from@.restrict(done) =~= from@);
    }
}

/// Drops the statistics of the tables that `hummock_version` does not
/// record; says whether it dropped any.
pub fn purge_prost_table_stats(table_stats: &mut TableStatsMap, hummock_version: &HummockVersion) -> (purged:
    bool)
    ensures
        final(table_stats)@ == old(table_stats)@.restrict(hummock_version@.state_table_info.dom()),
        purged == exists|t: TableId| #[trigger]
            old(table_stats)@.contains_key(t) && !hummock_version@.state_table_info.contains_key(t),
{
    broadcast use vstd::std_specs::hash::group_hash_axioms;

    let ghost before = table_stats@;
    let ghost recorded = hummock_version@.state_table_info.dom();
    let mut stale: Vec<TableId> = Vec::new();
    let iter = table_stats.iter();
    let ghost all = iter.remaining();
    for entry in it: iter
        invariant
            it.seq() == all,
            before == table_stats@,
            recorded == hummock_version@.state_table_info.dom(),
            forall|i: int|
                0 <= i < all.len() ==> before.contains_key(*(#[trigger] all[i]).0),
            forall|k: TableId| #[trigger]
                before.contains_key(k) ==> all.contains((&k, &before[k])),
            forall|t: TableId|
                stale@.contains(t) <==> exists|j: int|
                    0 <= j < it.index() && *(#[trigger] all[j]).0 == t && !recorded.contains(t),
    {
        let (table_id, _stats) = entry;
        let ghost held = stale@;
        proof {
            assert(*all[it.index() as int].0 == *table_id);
        }
        if !hummock_version.state_table_info.info().contains_key(table_id) {
            stale.push(*table_id);
            proof {
                assert forall|t: TableId|
                    stale@.contains(t) == (held.contains(t) || t == *table_id) by {
                    if stale@.contains(t) {
                        let k = choose|k: int| 0 <= k < stale@.len() && stale@[k] == t;
                        if k < held.len() {
                            assert(held[k] == t);
                        }
                    }
                    if held.contains(t) {
                        let k = choose|k: int| 0 <= k < held.len() && held[k] == t;
                        assert(stale@[k] == t);
                    }
                    if t == *table_id {
                        assert(stale@[held.len() as int] == t);
                    }
                }
            }
        }
        proof {
            let k = it.index() as int;
            assert forall|t: TableId|
                stale@.contains(t) <==> exists|j: int|
                    0 <= j < k + 1 && *(#[trigger] all[j]).0 == t && !recorded.contains(t) by {
                if held.contains(t) {
                    let j = choose|j: int|
                        0 <= j < k && *(#[trigger] all[j]).0 == t && !recorded.contains(t);
                    assert(0 <= j < k + 1 && *all[j].0 == t);
                }
                if stale@.contains(t) && !held.contains(t) {
                    assert(t == *table_id);
                    assert(*all[k].0 == t && !recorded.contains(t));
                }
                if exists|j: int|
                    0 <= j < k + 1 && *(#[trigger] all[j]).0 == t && !recorded.contains(t) {
                    let j = choose|j: int|
                        0 <= j < k + 1 && *(#[trigger] all[j]).0 == t && !recorded.contains(t);
                    if j < k {
                        assert(held.contains(t));
                    } else {
                        assert(t == *table_id);
                    }
                }
            }
        }
    }
    proof {
        assert forall|t: TableId| stale@.contains(t) == (before.contains_key(t)
            && !recorded.contains(t)) by {
            if before.contains_key(t) && !recorded.contains(t) {
                let j = all.index_of((&t, &before[t]));
                assert(*all[j].0 == t);
            }
        }
    }
    let mut i: usize = 0;
    proof {
        assert(table_stats@ =~= before.remove_keys(stale@.take(0).to_set()));
    }
    while i < stale.len()
        invariant
            i <= stale.len(),
            table_stats@ == before.remove_keys(stale@.take(i as int).to_set()),
        decreases stale.len() - i,
    {
        table_stats.remove(&stale[i]);
        proof {
            let a = stale@.take(i as int);
            let b = stale@.take(i + 1);
            assert forall|t: TableId| b.to_set().contains(t) == a.to_set().insert(
                stale@[i as int],
            ).contains(t) by {
                if b.contains(t) {
                    let k = choose|k: int| 0 <= k < b.len() && b[k] == t;
                    if k < i {
                        assert(a[k] == t);
                    }
                }
                if a.contains(t) {
                    let k = choose|k: int| 0 <= k < a.len() && a[k] == t;
                    assert(b[k] == t);
                }
                if t == stale@[i as int] {
                    assert(b[i as int] == t);
                }
            }
            assert(table_stats@ =~= before.remove_keys(b.to_set()));
        }
        i = i + 1;
    }
    proof {
        assert(stale@.take(stale.len() as int) =~= stale@);
        assert(table_stats@ =~= before.restrict(recorded));
        if stale.len() > 0 {
            assert(stale@.contains(stale@[0]));
        }
        if exists|t: TableId| #[trigger]
            before.contains_key(t) && !hummock_version@.state_table_info.contains_key(t) {
            let t = choose|t: TableId| #[trigger]
                before.contains_key(t) && !hummock_version@.state_table_info.contains_key(t);
            assert(stale@.contains(t));
        }
    }
    stale.len() > 0
}

/// The statistics of a version.
#[derive(Debug, PartialEq, Eq)]
pub struct HummockVersionStats {
    pub hummock_version_id: HummockVersionId,
    pub table_stats: TableStatsMap,
}

impl Clone for HummockVersionStats {
    fn clone(&self) -> (r: Self)
        ensures
            r.hummock_version_id == self.hummock_version_id,
            r.table_stats@ == self.table_stats@,
    {
        HummockVersionStats {
            hummock_version_id: self.hummock_version_id,
            table_stats: self.table_stats.clone(),
        }
    }
}

} // verus!
