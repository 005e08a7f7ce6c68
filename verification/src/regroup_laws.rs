//! What holds of repaired table files: each belongs to its group with all
//! its tables.

use vstd::prelude::*;
use crate::key::TableId;
use crate::sst_grouping::{ExtendedSstableInfoView, GroupedSst};
use crate::sst_regroup::{
    belongs_to_group, bucket_position, buckets_of, is_trivial_adjust, regrouped, repaired,
    total_ids_needed, Buckets,
};
use crate::state_table_info::CompactionGroupId;

verus! {

/// The test "`mapping` gives the table the group `g`".
pub open spec fn table_in_group(
    mapping: Map<TableId, CompactionGroupId>,
    g: CompactionGroupId,
) -> spec_fn(TableId) -> bool {
    |t: TableId| mapping.contains_key(t) && mapping[t] == g
}

/// The groups of `buckets` go up, and each bucket holds the tables of
/// `table_ids` that `mapping` gives its group, in their order, at least
/// one.
pub open spec fn buckets_sound(
    buckets: Buckets,
    table_ids: Seq<TableId>,
    mapping: Map<TableId, CompactionGroupId>,
) -> bool {
    &&& forall|i: int, j: int|
        0 <= i < j < buckets.len() ==> (#[trigger] buckets[i]).0 < (#[trigger] buckets[j]).0
    &&& forall|k: int|
        0 <= k < buckets.len() ==> (#[trigger] buckets[k]).1 == table_ids.filter(
            table_in_group(mapping, buckets[k].0),
        ) && buckets[k].1.len() > 0
    &&& forall|i: int|
        0 <= i < table_ids.len() && mapping.contains_key(#[trigger] table_ids[i]) ==> exists|k: int|
            0 <= k < buckets.len() && (#[trigger] buckets[k]).0 == mapping[table_ids[i]]
}

/// Where the groups of buckets go up, the position of a group parts the
/// buckets into those of lower groups and the others.
pub proof fn lemma_bucket_position(buckets: Buckets, g: CompactionGroupId)
    requires
        forall|i: int, j: int|
            0 <= i < j < buckets.len() ==> (#[trigger] buckets[i]).0 < (#[trigger] buckets[j]).0,
    ensures
        0 <= bucket_position(buckets, g) <= buckets.len(),
        forall|i: int| 0 <= i < bucket_position(buckets, g) ==> (#[trigger] buckets[i]).0 < g,
        forall|i: int|
            bucket_position(buckets, g) <= i < buckets.len() ==> (#[trigger] buckets[i]).0 >= g,
    decreases buckets.len(),
{
    if buckets.len() > 0 && buckets[0].0 < g {
        let rest = buckets.drop_first();
        assert forall|i: int, j: int| 0 <= i < j < rest.len() implies (#[trigger] rest[i]).0 < (
        #[trigger] rest[j]).0 by {
            assert(rest[i] == buckets[i + 1]);
            assert(rest[j] == buckets[j + 1]);
        }
        lemma_bucket_position(rest, g);
        let p = bucket_position(rest, g);
        assert forall|i: int| 0 <= i < p + 1 implies (#[trigger] buckets[i]).0 < g by {
            if i > 0 {
                assert(rest[i - 1] == buckets[i]);
            }
        }
        assert forall|i: int| p + 1 <= i < buckets.len() implies (#[trigger] buckets[i]).0 >= g by {
            assert(rest[i - 1] == buckets[i]);
        }
    } else if buckets.len() > 0 {
        assert forall|i: int| 0 <= i < buckets.len() implies (#[trigger] buckets[i]).0 >= g by {
            if i > 0 {
                assert(buckets[0].0 < buckets[i].0);
            }
        }
    }
}

/// The tables of `table_ids` that pass a test which none of them passes:
/// none.
pub proof fn lemma_filter_nothing(table_ids: Seq<TableId>, test: spec_fn(TableId) -> bool)
    requires
        forall|i: int| 0 <= i < table_ids.len() ==> !test(#[trigger] table_ids[i]),
    ensures
        table_ids.filter(test) == Seq::<TableId>::empty(),
    decreases table_ids.len(),
{
    reveal(Seq::filter);
    if table_ids.len() > 0 {
        let rest = table_ids.drop_last();
        assert forall|i: int| 0 <= i < rest.len() implies !test(#[trigger] rest[i]) by {
            assert(rest[i] == table_ids[i]);
        }
        lemma_filter_nothing(rest, test);
        assert(table_ids.last() == table_ids[table_ids.len() - 1]);
    }
}

/// Where as many tables pass a test as there are, all pass it.
pub proof fn lemma_filter_everything(table_ids: Seq<TableId>, test: spec_fn(TableId) -> bool)
    requires
        table_ids.filter(test).len() == table_ids.len(),
    ensures
        forall|i: int| 0 <= i < table_ids.len() ==> test(#[trigger] table_ids[i]),
    decreases table_ids.len(),
{
    reveal(Seq::filter);
    if table_ids.len() > 0 {
        let rest = table_ids.drop_last();
        rest.lemma_filter_len(test);
        lemma_filter_everything(rest, test);
        assert forall|i: int| 0 <= i < table_ids.len() implies test(#[trigger] table_ids[i]) by {
            if i < rest.len() {
                assert(rest[i] == table_ids[i]);
            } else {
                assert(table_ids[i] == table_ids.last());
            }
        }
    }
}

/// The buckets of tables are sound.
pub proof fn lemma_buckets_sound(table_ids: Seq<TableId>, mapping: Map<TableId, CompactionGroupId>)
    ensures
        buckets_sound(buckets_of(table_ids, mapping), table_ids, mapping),
    decreases table_ids.len(),
{
    reveal(Seq::filter);
    if table_ids.len() > 0 {
        let rest = table_ids.drop_last();
        let t = table_ids.last();
        let before = buckets_of(rest, mapping);
        lemma_buckets_sound(rest, mapping);
        let after = buckets_of(table_ids, mapping);
        assert(table_ids.last() == table_ids[table_ids.len() - 1]);
        if mapping.contains_key(t) {
            let g = mapping[t];
            let pos = bucket_position(before, g);
            lemma_bucket_position(before, g);
            if pos < before.len() && before[pos].0 == g {
                assert(after == before.update(pos, (g, before[pos].1.push(t))));
                assert forall|k: int| 0 <= k < after.len() implies (#[trigger] after[k]).1
                    == table_ids.filter(table_in_group(mapping, after[k].0)) && after[k].1.len()
                    > 0 by {
                    if k != pos {
                        assert(after[k] == before[k]);
                        if k < pos {
                            assert(before[k].0 < g);
                        } else {
                            assert(before[pos].0 < before[k].0);
                        }
                    }
                }
                assert forall|i: int|
                    0 <= i < table_ids.len() && mapping.contains_key(
                        #[trigger] table_ids[i],
                    ) implies exists|k: int|
                    0 <= k < after.len() && (#[trigger] after[k]).0 == mapping[table_ids[i]] by {
                    if i < rest.len() {
                        assert(rest[i] == table_ids[i]);
                        let k = choose|k: int|
                            0 <= k < before.len() && (#[trigger] before[k]).0 == mapping[rest[i]];
                        assert(after[k].0 == before[k].0);
                    } else {
                        assert(after[pos].0 == g);
                    }
                }
                assert forall|i: int, j: int| 0 <= i < j < after.len() implies (
                #[trigger] after[i]).0 < (#[trigger] after[j]).0 by {
                    assert(after[i].0 == before[i].0);
                    assert(after[j].0 == before[j].0);
                }
            } else {
                assert(after == before.insert(pos, (g, seq![t])));
                // no table of the rest has the group g
                assert forall|i: int| 0 <= i < rest.len() implies !table_in_group(mapping, g)(
                    #[trigger] rest[i],
                ) by {
                    if mapping.contains_key(rest[i]) && mapping[rest[i]] == g {
                        let k = choose|k: int|
                            0 <= k < before.len() && (#[trigger] before[k]).0 == mapping[rest[i]];
                        if k < pos {
                            assert(before[k].0 < g);
                        } else {
                            assert(before[k].0 >= g);
                            if k > pos {
                                assert(before[pos].0 < before[k].0);
                            }
                        }
                    }
                }
                lemma_filter_nothing(rest, table_in_group(mapping, g));
                assert(Seq::<TableId>::empty().push(t) =~= seq![t]);
                assert forall|k: int| 0 <= k < after.len() implies (#[trigger] after[k]).1
                    == table_ids.filter(table_in_group(mapping, after[k].0)) && after[k].1.len()
                    > 0 by {
                    if k < pos {
                        assert(after[k] == before[k]);
                        assert(before[k].0 < g);
                    } else if k > pos {
                        assert(after[k] == before[k - 1]);
                        assert(before[k - 1].0 >= g);
                        if k - 1 > pos {
                            assert(before[pos].0 < before[k - 1].0);
                        }
                    }
                }
                assert forall|i: int|
                    0 <= i < table_ids.len() && mapping.contains_key(
                        #[trigger] table_ids[i],
                    ) implies exists|k: int|
                    0 <= k < after.len() && (#[trigger] after[k]).0 == mapping[table_ids[i]] by {
                    if i < rest.len() {
                        assert(rest[i] == table_ids[i]);
                        let k = choose|k: int|
                            0 <= k < before.len() && (#[trigger] before[k]).0 == mapping[rest[i]];
                        if k < pos {
                            assert(after[k] == before[k]);
                        } else {
                            assert(after[k + 1] == before[k]);
                        }
                    } else {
                        assert(after[pos].0 == g);
                    }
                }
                assert forall|i: int, j: int| 0 <= i < j < after.len() implies (
                #[trigger] after[i]).0 < (#[trigger] after[j]).0 by {
                    if j < pos {
                        assert(after[i] == before[i] && after[j] == before[j]);
                    } else if i > pos {
                        assert(after[i] == before[i - 1] && after[j] == before[j - 1]);
                    } else if i < pos && j > pos {
                        assert(after[i] == before[i] && after[j] == before[j - 1]);
                    } else if i == pos {
                        assert(after[j] == before[j - 1]);
                        assert(before[j - 1].0 >= g);
                    } else {
                        assert(after[i] == before[i]);
                        assert(before[i].0 < g);
                    }
                }
            }
        } else {
            assert(after == before);
            assert forall|i: int|
                0 <= i < table_ids.len() && mapping.contains_key(
                    #[trigger] table_ids[i],
                ) implies exists|k: int|
                0 <= k < after.len() && (#[trigger] after[k]).0 == mapping[table_ids[i]] by {
                assert(rest[i] == table_ids[i]);
            }
        }
    }
}

/// Every table of the file `pair` belongs to the group of `pair`, and that
/// group is one of `groups`.
pub open spec fn pair_belongs(
    pair: GroupedSst,
    mapping: Map<TableId, CompactionGroupId>,
    groups: Set<CompactionGroupId>,
) -> bool {
    belongs_to_group(pair.1, pair.0, mapping, groups)
}

/// A repaired file belongs to its group with all its tables, as does
/// every copy of a file that is split; given that the group of every
/// table is one of `groups`.
pub proof fn lemma_repaired_belong(
    e: ExtendedSstableInfoView,
    mapping: Map<TableId, CompactionGroupId>,
    groups: Set<CompactionGroupId>,
    next_id: int,
)
    requires
        forall|t: TableId| #[trigger] mapping.contains_key(t) ==> groups.contains(mapping[t]),
    ensures
        forall|i: int|
            0 <= i < repaired(e, mapping, groups, next_id).len() ==> pair_belongs(
                #[trigger] repaired(e, mapping, groups, next_id)[i],
                mapping,
                groups,
            ),
{
    let ids = e.sst_info.table_ids;
    let buckets = buckets_of(ids, mapping);
    lemma_buckets_sound(ids, mapping);
    let out = repaired(e, mapping, groups, next_id);
    if belongs_to_group(e.sst_info, e.compaction_group_id, mapping, groups) {
    } else if is_trivial_adjust(buckets, e.sst_info) {
        let g = buckets[0].0;
        lemma_filter_everything(ids, table_in_group(mapping, g));
        assert(buckets[0].1.len() > 0);
        assert(table_in_group(mapping, g)(ids[0]));
        assert(mapping.contains_key(ids[0]));
    } else {
        assert forall|i: int| 0 <= i < out.len() implies pair_belongs(
            #[trigger] out[i],
            mapping,
            groups,
        ) by {
            let g = buckets[i].0;
            let members = buckets[i].1;
            assert(members == ids.filter(table_in_group(mapping, g)));
            assert forall|j: int| 0 <= j < members.len() implies mapping.contains_key(
                #[trigger] members[j],
            ) && mapping[members[j]] == g by {
                ids.lemma_filter_pred(table_in_group(mapping, g), j);
            }
            assert(mapping.contains_key(members[0]));
        }
    }
}

/// Every repaired file belongs to its group with all its tables.
pub proof fn lemma_regrouped_belong(
    ssts: Seq<ExtendedSstableInfoView>,
    mapping: Map<TableId, CompactionGroupId>,
    groups: Set<CompactionGroupId>,
    next_id: int,
)
    requires
        forall|t: TableId| #[trigger] mapping.contains_key(t) ==> groups.contains(mapping[t]),
    ensures
        forall|i: int|
            0 <= i < regrouped(ssts, mapping, groups, next_id).len() ==> pair_belongs(
                #[trigger] regrouped(ssts, mapping, groups, next_id)[i],
                mapping,
                groups,
            ),
    decreases ssts.len(),
{
    if ssts.len() > 0 {
        let rest = ssts.drop_last();
        lemma_regrouped_belong(rest, mapping, groups, next_id);
        let start = next_id + total_ids_needed(rest, mapping, groups);
        lemma_repaired_belong(ssts.last(), mapping, groups, start);
        let a = regrouped(rest, mapping, groups, next_id);
        let b = repaired(ssts.last(), mapping, groups, start);
        let out = regrouped(ssts, mapping, groups, next_id);
        assert(out == a + b);
        assert forall|i: int| 0 <= i < out.len() implies pair_belongs(
            #[trigger] out[i],
            mapping,
            groups,
        ) by {
            if i < a.len() {
                assert(out[i] == a[i]);
            } else {
                assert(out[i] == b[i - a.len()]);
            }
        }
    }
}

/// How many tables the files `ssts` hold, counted file by file.
pub open spec fn table_count(ssts: Seq<ExtendedSstableInfoView>) -> nat
    decreases ssts.len(),
{
    if ssts.len() == 0 {
        0
    } else {
        table_count(ssts.drop_last()) + ssts.last().sst_info.table_ids.len()
    }
}

/// Files of one table each hold as many tables as there are files.
pub proof fn lemma_sum_of_ones(ssts: Seq<ExtendedSstableInfoView>)
    requires
        forall|i: int| 0 <= i < ssts.len() ==> (#[trigger] ssts[i]).sst_info.table_ids.len() == 1,
    ensures
        table_count(ssts) == ssts.len(),
    decreases ssts.len(),
{
    if ssts.len() > 0 {
        let rest = ssts.drop_last();
        assert forall|i: int| 0 <= i < rest.len() implies (
        #[trigger] rest[i]).sst_info.table_ids.len() == 1 by {
            assert(rest[i] == ssts[i]);
        }
        lemma_sum_of_ones(rest);
        assert(ssts.last() == ssts[ssts.len() - 1]);
    }
}

/// The tables of `table_ids` fill no more buckets than they are.
pub proof fn lemma_buckets_at_most_tables(
    table_ids: Seq<TableId>,
    mapping: Map<TableId, CompactionGroupId>,
)
    ensures
        buckets_of(table_ids, mapping).len() <= table_ids.len(),
    decreases table_ids.len(),
{
    if table_ids.len() > 0 {
        let rest = table_ids.drop_last();
        lemma_buckets_at_most_tables(rest, mapping);
        if mapping.contains_key(table_ids.last()) {
            lemma_bucket_position_within(
                buckets_of(rest, mapping),
                mapping[table_ids.last()],
            );
        }
    }
}

/// The position of a group among buckets is one of theirs, or their
/// number.
pub proof fn lemma_bucket_position_within(
    buckets: Buckets,
    g: CompactionGroupId,
)
    ensures
        0 <= bucket_position(buckets, g) <= buckets.len(),
    decreases buckets.len(),
{
    if buckets.len() > 0 {
        lemma_bucket_position_within(buckets.drop_first(), g);
    }
}

/// The repair of files takes no more fresh ids than the files hold
/// tables.
pub proof fn lemma_ids_needed_at_most_tables(
    ssts: Seq<ExtendedSstableInfoView>,
    mapping: Map<TableId, CompactionGroupId>,
    groups: Set<CompactionGroupId>,
)
    ensures
        total_ids_needed(ssts, mapping, groups) <= table_count(ssts),
    decreases ssts.len(),
{
    if ssts.len() > 0 {
        lemma_ids_needed_at_most_tables(ssts.drop_last(), mapping, groups);
        lemma_buckets_at_most_tables(ssts.last().sst_info.table_ids, mapping);
    }
}

} // verus!
