//! The repair of table files whose tables do not all belong to the
//! compaction group that the file names.

use vstd::prelude::*;
use std::collections::HashMap;
use crate::key::TableId;
use crate::levels::{clone_u32s, Levels, SstableInfo, SstableInfoView};
use crate::sst_grouping::{
    extended_view, pairs_view, ExtendedSstableInfo, ExtendedSstableInfoView, GroupedSst,
};
use crate::state_table_info::CompactionGroupId;

verus! {

/// Tables by group: the groups in ascending order, each with its tables.
pub type Buckets = Seq<(CompactionGroupId, Seq<TableId>)>;

/// The buckets of a vector, each by its view.
pub open spec fn buckets_view(buckets: Seq<(CompactionGroupId, Vec<TableId>)>) -> Buckets {
    buckets.map_values(|b: (CompactionGroupId, Vec<TableId>)| (b.0, b.1@))
}

/// The index of the first bucket whose group is not below `g`.
pub open spec fn bucket_position(buckets: Buckets, g: CompactionGroupId) -> int
    decreases buckets.len(),
{
    if buckets.len() == 0 || buckets[0].0 >= g {
        0
    } else {
        1 + bucket_position(buckets.drop_first(), g)
    }
}

/// `buckets` with table `t` added to group `g`.
pub open spec fn bucket_insert(buckets: Buckets, g: CompactionGroupId, t: TableId) -> Buckets {
    let pos = bucket_position(buckets, g);
    if pos < buckets.len() && buckets[pos].0 == g {
        buckets.update(pos, (g, buckets[pos].1.push(t)))
    } else {
        buckets.insert(pos, (g, seq![t]))
    }
}

/// The tables `table_ids` by their group, as far as `mapping` knows
/// them.
pub open spec fn buckets_of(
    table_ids: Seq<TableId>,
    mapping: Map<TableId, CompactionGroupId>,
) -> Buckets
    decreases table_ids.len(),
{
    if table_ids.len() == 0 {
        Seq::empty()
    } else {
        let rest = buckets_of(table_ids.drop_last(), mapping);
        let t = table_ids.last();
        if mapping.contains_key(t) {
            bucket_insert(rest, mapping[t], t)
        } else {
            rest
        }
    }
}

/// Adds table `t` to group `g` of `buckets`.
fn add_to_bucket(buckets: &mut Vec<(CompactionGroupId, Vec<TableId>)>, g: CompactionGroupId, t: TableId)
    ensures
        buckets_view(final(buckets)@) == bucket_insert(buckets_view(old(buckets)@), g, t),
{
    let ghost all = buckets_view(buckets@);
    let mut i: usize = 0;
    proof {
        assert(all.skip(0) =~= all);
    }
    while i < buckets.len() && buckets[i].0 < g
        invariant
            i <= buckets.len(),
            all == buckets_view(buckets@),
            bucket_position(all, g) == i + bucket_position(all.skip(i as int), g),
        decreases buckets.len() - i,
    {
        proof {
            assert(all.skip(i as int)[0] == all[i as int]);
            assert(all[i as int].0 == buckets@[i as int].0);
            assert(all.skip(i as int).drop_first() =~= all.skip(i + 1));
        }
        i = i + 1;
    }
    proof {
        if i < buckets.len() {
            assert(all.skip(i as int)[0] == all[i as int]);
            assert(all[i as int].0 == buckets@[i as int].0);
        }
    }
    if i < buckets.len() && buckets[i].0 == g {
        proof {
            assert(all[i as int] == (buckets@[i as int].0, buckets@[i as int].1@));
        }
        buckets[i].1.push(t);
        proof {
            assert(buckets_view(buckets@) =~= all.update(i as int, (g, all[i as int].1.push(t))));
        }
    } else {
        let mut ids: Vec<TableId> = Vec::new();
        ids.push(t);
        proof {
            assert(ids@ =~= seq![t]);
        }
        buckets.insert(i, (g, ids));
        proof {
            assert(buckets_view(buckets@) =~= all.insert(i as int, (g, seq![t])));
        }
    }
}

/// The tables `table_ids` by their group, as far as
/// `table_compaction_group_mapping` knows them.
pub fn group_table_ids(
    table_ids: &Vec<TableId>,
    table_compaction_group_mapping: &HashMap<TableId, CompactionGroupId>,
) -> (r: Vec<(CompactionGroupId, Vec<TableId>)>)
    ensures
        buckets_view(r@) == buckets_of(table_ids@, table_compaction_group_mapping@),
{
    broadcast use vstd::std_specs::hash::group_hash_axioms;

    let mut group_table_ids: Vec<(CompactionGroupId, Vec<TableId>)> = Vec::new();
    let mut i: usize = 0;
    proof {
        assert(table_ids@.take(0) =~= Seq::empty());
        assert(buckets_view(group_table_ids@) =~= Seq::empty());
    }
    while i < table_ids.len()
        invariant
            i <= table_ids.len(),
            buckets_view(group_table_ids@) == buckets_of(
                table_ids@.take(i as int),
                table_compaction_group_mapping@,
            ),
        decreases table_ids.len() - i,
    {
        proof {
            assert(table_ids@.take(i + 1).drop_last() =~= table_ids@.take(i as int));
            assert(table_ids@.take(i + 1).last() == table_ids@[i as int]);
        }
        match table_compaction_group_mapping.get(&table_ids[i]) {
            Some(compaction_group_id) => {
                add_to_bucket(&mut group_table_ids, *compaction_group_id, table_ids[i]);
            },
            None => {},
        }
        i = i + 1;
    }
    proof {
        assert(table_ids@.take(table_ids.len() as int) =~= table_ids@);
    }
    group_table_ids
}

/// Whether every table of `sst` belongs to the group `g`, and `g` is one
/// of `groups`.
pub open spec fn belongs_to_group(
    sst: SstableInfoView,
    g: CompactionGroupId,
    mapping: Map<TableId, CompactionGroupId>,
    groups: Set<CompactionGroupId>,
) -> bool {
    groups.contains(g) && forall|i: int|
        0 <= i < sst.table_ids.len() ==> mapping.contains_key(#[trigger] sst.table_ids[i])
            && mapping[sst.table_ids[i]] == g
}

/// Whether the tables of `sst` that `mapping` knows are all its tables,
/// and belong to one group.
pub open spec fn is_trivial_adjust(buckets: Buckets, sst: SstableInfoView) -> bool {
    buckets.len() == 1 && buckets[0].1.len() == sst.table_ids.len()
}

/// Whether a file is to be split: it does not belong to the group that it
/// names, nor to one other group with all its tables.
pub open spec fn is_split(
    e: ExtendedSstableInfoView,
    mapping: Map<TableId, CompactionGroupId>,
    groups: Set<CompactionGroupId>,
) -> bool {
    !belongs_to_group(e.sst_info, e.compaction_group_id, mapping, groups) && !is_trivial_adjust(
        buckets_of(e.sst_info.table_ids, mapping),
        e.sst_info,
    )
}

/// How many fresh ids the repair of a file takes: none where it is not
/// split, else one for each group that a table of the file belongs to.
pub open spec fn ids_needed(
    e: ExtendedSstableInfoView,
    mapping: Map<TableId, CompactionGroupId>,
    groups: Set<CompactionGroupId>,
) -> nat {
    if is_split(e, mapping, groups) {
        buckets_of(e.sst_info.table_ids, mapping).len()
    } else {
        0
    }
}

/// How many fresh ids the repair of the files `ssts` takes.
pub open spec fn total_ids_needed(
    ssts: Seq<ExtendedSstableInfoView>,
    mapping: Map<TableId, CompactionGroupId>,
    groups: Set<CompactionGroupId>,
) -> nat
    decreases ssts.len(),
{
    if ssts.len() == 0 {
        0
    } else {
        total_ids_needed(ssts.drop_last(), mapping, groups) + ids_needed(
            ssts.last(),
            mapping,
            groups,
        )
    }
}

/// The copy of `sst` for the tables of one group: it has the id `sst_id`,
/// holds only the tables `table_ids`, and no range tombstone.
pub open spec fn branch_of(
    sst: SstableInfoView,
    sst_id: int,
    table_ids: Seq<TableId>,
) -> SstableInfoView {
    SstableInfoView { sst_id: sst_id as u64, table_ids, range_tombstone_count: 0, ..sst }
}

/// What becomes of one file: it stays as it is where all its tables
/// belong to the group that it names; it goes to another group where all
/// its tables belong to that; else it is split into one copy for each
/// group that a table of it belongs to, in the order of the groups, with
/// the fresh ids from `next_id` on.
pub open spec fn repaired(
    e: ExtendedSstableInfoView,
    mapping: Map<TableId, CompactionGroupId>,
    groups: Set<CompactionGroupId>,
    next_id: int,
) -> Seq<GroupedSst> {
    let buckets = buckets_of(e.sst_info.table_ids, mapping);
    if belongs_to_group(e.sst_info, e.compaction_group_id, mapping, groups) {
        seq![(e.compaction_group_id, e.sst_info)]
    } else if is_trivial_adjust(buckets, e.sst_info) {
        seq![(buckets[0].0, e.sst_info)]
    } else {
        Seq::new(
            buckets.len(),
            |k: int| (buckets[k].0, branch_of(e.sst_info, next_id + k, buckets[k].1)),
        )
    }
}

/// What becomes of the files `ssts`, one after the other; the fresh ids
/// are taken from `next_id` on.
pub open spec fn regrouped(
    ssts: Seq<ExtendedSstableInfoView>,
    mapping: Map<TableId, CompactionGroupId>,
    groups: Set<CompactionGroupId>,
    next_id: int,
) -> Seq<GroupedSst>
    decreases ssts.len(),
{
    if ssts.len() == 0 {
        Seq::empty()
    } else {
        regrouped(ssts.drop_last(), mapping, groups, next_id) + repaired(
            ssts.last(),
            mapping,
            groups,
            next_id + total_ids_needed(ssts.drop_last(), mapping, groups),
        )
    }
}

/// Whether every table of `sst` belongs to the group `compaction_group_id`
/// and that group has levels.
fn is_sst_belong_to_group_declared(
    levels: &HashMap<CompactionGroupId, Levels>,
    table_compaction_group_mapping: &HashMap<TableId, CompactionGroupId>,
    compaction_group_id: CompactionGroupId,
    sst: &SstableInfo,
) -> (r: bool)
    ensures
        r == belongs_to_group(
            sst@,
            compaction_group_id,
            table_compaction_group_mapping@,
            levels@.dom(),
        ),
{
    broadcast use vstd::std_specs::hash::group_hash_axioms;

    if !levels.contains_key(&compaction_group_id) {
        return false;
    }
    let mut i: usize = 0;
    while i < sst.table_ids.len()
        invariant
            i <= sst.table_ids.len(),
            levels@.dom().contains(compaction_group_id),
            forall|j: int|
                0 <= j < i ==> table_compaction_group_mapping@.contains_key(
                    #[trigger] sst.table_ids@[j],
                ) && table_compaction_group_mapping@[sst.table_ids@[j]] == compaction_group_id,
        decreases sst.table_ids.len() - i,
    {
        let belongs = match table_compaction_group_mapping.get(&sst.table_ids[i]) {
            Some(table_cg_id) => *table_cg_id == compaction_group_id,
            None => false,
        };
        if !belongs {
            proof {
                assert(sst@.table_ids[i as int] == sst.table_ids@[i as int]);
            }
            return false;
        }
        i = i + 1;
    }
    proof {
        assert forall|j: int| 0 <= j < sst@.table_ids.len() implies table_compaction_group_mapping@
            .contains_key(#[trigger] sst@.table_ids[j]) && table_compaction_group_mapping@[sst@
            .table_ids[j]] == compaction_group_id by {
            assert(sst@.table_ids[j] == sst.table_ids@[j]);
        }
    }
    true
}

/// How many fresh ids the repair of `sstables` takes; `None` where that
/// is more than a `u64` holds.
pub fn count_new_sst_ids(
    sstables: &Vec<ExtendedSstableInfo>,
    levels: &HashMap<CompactionGroupId, Levels>,
    table_compaction_group_mapping: &HashMap<TableId, CompactionGroupId>,
) -> (r: Option<u64>)
    ensures
        match r {
            Some(n) => n == total_ids_needed(
                extended_view(sstables@),
                table_compaction_group_mapping@,
                levels@.dom(),
            ),
            None => total_ids_needed(
                extended_view(sstables@),
                table_compaction_group_mapping@,
                levels@.dom(),
            ) > u64::MAX,
        },
{
    let ghost all = extended_view(sstables@);
    let ghost mapping = table_compaction_group_mapping@;
    let ghost groups = levels@.dom();
    let mut new_sst_id_number: u64 = 0;
    let mut i: usize = 0;
    proof {
        assert(all.take(0) =~= Seq::empty());
    }
    while i < sstables.len()
        invariant
            i <= sstables.len(),
            all == extended_view(sstables@),
            mapping == table_compaction_group_mapping@,
            groups == levels@.dom(),
            new_sst_id_number == total_ids_needed(all.take(i as int), mapping, groups),
        decreases sstables.len() - i,
    {
        let e = &sstables[i];
        proof {
            assert(all.take(i + 1).drop_last() =~= all.take(i as int));
            assert(all.take(i + 1).last() == e@);
        }
        if !is_sst_belong_to_group_declared(
            levels,
            table_compaction_group_mapping,
            e.compaction_group_id,
            &e.sst_info,
        ) {
            let group_table_ids = group_table_ids(&e.sst_info.table_ids, table_compaction_group_mapping);
            let is_trivial_adjust = group_table_ids.len() == 1 && group_table_ids[0].1.len()
                == e.sst_info.table_ids.len();
            proof {
                if group_table_ids.len() > 0 {
                    assert(buckets_view(group_table_ids@)[0] == (
                        group_table_ids@[0].0,
                        group_table_ids@[0].1@,
                    ));
                }
            }
            if !is_trivial_adjust {
                let needed = group_table_ids.len() as u64;
                match new_sst_id_number.checked_add(needed) {
                    Some(n) => {
                        new_sst_id_number = n;
                    },
                    None => {
                        proof {
                            lemma_total_ids_needed_prefix(all, mapping, groups, i + 1);
                        }
                        return None;
                    },
                }
            }
        }
        i = i + 1;
    }
    proof {
        assert(all.take(sstables.len() as int) =~= all);
    }
    Some(new_sst_id_number)
}

/// The repair of some of the files, from the start, takes no more fresh
/// ids than that of all.
pub proof fn lemma_total_ids_needed_prefix(
    ssts: Seq<ExtendedSstableInfoView>,
    mapping: Map<TableId, CompactionGroupId>,
    groups: Set<CompactionGroupId>,
    n: int,
)
    requires
        0 <= n <= ssts.len(),
    ensures
        total_ids_needed(ssts.take(n), mapping, groups) <= total_ids_needed(ssts, mapping, groups),
    decreases ssts.len(),
{
    if n == ssts.len() {
        assert(ssts.take(n) =~= ssts);
    } else {
        lemma_total_ids_needed_prefix(ssts.drop_last(), mapping, groups, n);
        assert(ssts.drop_last().take(n) =~= ssts.take(n));
    }
}

/// Repairs the files of `sstables`: leaves a file as it is where all its
/// tables belong to the group that it names; gives it another group where
/// all its tables belong to that; else puts in its place one copy for
/// each group that a table of it belongs to, with the tables of that
/// group and a fresh id from `new_sst_id` on.
pub fn regroup_sstables(
    sstables: Vec<ExtendedSstableInfo>,
    levels: &HashMap<CompactionGroupId, Levels>,
    table_compaction_group_mapping: &HashMap<TableId, CompactionGroupId>,
    new_sst_id: u64,
) -> (r: Vec<ExtendedSstableInfo>)
    requires
        new_sst_id + total_ids_needed(
            extended_view(sstables@),
            table_compaction_group_mapping@,
            levels@.dom(),
        ) <= u64::MAX,
    ensures
        pairs_view(r@) == regrouped(
            extended_view(sstables@),
            table_compaction_group_mapping@,
            levels@.dom(),
            new_sst_id as int,
        ),
{
    let ghost all = extended_view(sstables@);
    let ghost mapping = table_compaction_group_mapping@;
    let ghost groups = levels@.dom();
    let mut new_sst_id = new_sst_id;
    let ghost first_id = new_sst_id as int;
    let mut out: Vec<ExtendedSstableInfo> = Vec::new();
    proof {
        assert(all.take(0) =~= Seq::empty());
        assert(pairs_view(out@) =~= Seq::empty());
    }
    for sstable in it: sstables
        invariant
            it.seq() == sstables@,
            all == extended_view(sstables@),
            mapping == table_compaction_group_mapping@,
            groups == levels@.dom(),
            first_id + total_ids_needed(all, mapping, groups) <= u64::MAX,
            new_sst_id == first_id + total_ids_needed(all.take(it.index() as int), mapping, groups),
            pairs_view(out@) == regrouped(all.take(it.index() as int), mapping, groups, first_id),
    {
        let ghost k = it.index() as int;
        let ghost held = pairs_view(out@);
        proof {
            assert(all.take(k + 1).drop_last() =~= all.take(k));
            assert(all.take(k + 1).last() == sstable@);
            lemma_total_ids_needed_prefix(all, mapping, groups, k + 1);
        }
        let ExtendedSstableInfo { compaction_group_id, sst_info: sst, table_stats: _ } =
            sstable;
        if is_sst_belong_to_group_declared(
            levels,
            table_compaction_group_mapping,
            compaction_group_id,
            &sst,
        ) {
            let ghost pair = (compaction_group_id, sst@);
            out.push(ExtendedSstableInfo::with_compaction_group(compaction_group_id, sst));
            proof {
                assert(pairs_view(out@) =~= held + seq![pair]);
            }
        } else {
            let group_table_ids = group_table_ids(&sst.table_ids, table_compaction_group_mapping);
            let ghost buckets = buckets_view(group_table_ids@);
            proof {
                if group_table_ids.len() > 0 {
                    assert(buckets[0] == (group_table_ids@[0].0, group_table_ids@[0].1@));
                }
            }
            let is_trivial_adjust = group_table_ids.len() == 1 && group_table_ids[0].1.len()
                == sst.table_ids.len();
            if is_trivial_adjust {
                let ghost pair = (group_table_ids@[0].0, sst@);
                out.push(ExtendedSstableInfo::with_compaction_group(group_table_ids[0].0, sst));
                proof {
                    assert(pairs_view(out@) =~= held + seq![pair]);
                }
            } else {
                let ghost start = new_sst_id as int;
                let ghost goal = repaired(sstable@, mapping, groups, start);
                let mut b: usize = 0;
                proof {
                    assert(pairs_view(out@) =~= held + goal.take(0));
                }
                while b < group_table_ids.len()
                    invariant
                        b <= group_table_ids.len(),
                        buckets == buckets_view(group_table_ids@),
                        goal == Seq::new(
                            buckets.len(),
                            |k: int| (buckets[k].0, branch_of(sst@, start + k, buckets[k].1)),
                        ),
                        new_sst_id == start + b,
                        start + group_table_ids.len() <= u64::MAX,
                        pairs_view(out@) == held + goal.take(b as int),
                    decreases group_table_ids.len() - b,
                {
                    let ghost so_far = pairs_view(out@);
                    let mut branch_sst = sst.clone();
                    branch_sst.sst_id = new_sst_id;
                    branch_sst.table_ids = clone_u32s(&group_table_ids[b].1);
                    branch_sst.range_tombstone_count = 0;
                    proof {
                        assert(buckets[b as int] == (
                            group_table_ids@[b as int].0,
                            group_table_ids@[b as int].1@,
                        ));
                        assert(branch_sst@ == branch_of(sst@, start + b, buckets[b as int].1));
                    }
                    let ghost pair = (group_table_ids@[b as int].0, branch_sst@);
                    out.push(
                        ExtendedSstableInfo::with_compaction_group(
                            group_table_ids[b].0,
                            branch_sst,
                        ),
                    );
                    proof {
                        assert(pairs_view(out@) =~= so_far.push(pair));
                        assert(so_far.push(pair) =~= held + goal.take(b + 1));
                    }
                    new_sst_id = new_sst_id + 1;
                    b = b + 1;
                }
                proof {
                    assert(goal.take(group_table_ids.len() as int) =~= goal);
                }
            }
        }
    }
    proof {
        assert(all.take(all.len() as int) =~= all);
    }
    out
}

} // verus!
