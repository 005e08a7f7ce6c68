//! Table files and keys made up for trying the store out.

use vstd::prelude::*;
use itertools::Itertools;
use std::collections::{HashMap, HashSet};
use crate::commit_epoch::{
    commit_delta, commit_ids_needed, commit_of_all_tables, written_by_unknown, Error,
    HummockContextId, HummockManager, HummockSnapshot,
};
use crate::epoch::HummockEpoch;
use crate::key::TableId;
use crate::levels::{
    ssts_view, HummockSstableObjectId, KeyRange, KeyRangeView, Level, SstableInfo, SstableInfoView,
};
use crate::sst_grouping::extended_view;
use crate::sst_grouping::{ExtendedSstableInfoView, LocalSstableInfo};
use crate::version::{HummockVersion, StaticCompactionGroupId};

verus! {

/// The decimal digits of `n`, the highest first.
pub open spec fn decimal(n: nat) -> Seq<u8>
    decreases n,
{
    if n < 10 {
        seq![(48 + n) as u8]
    } else {
        decimal(n / 10).push((48 + n % 10) as u8)
    }
}

/// `count` digits 0.
pub open spec fn zeros(count: int) -> Seq<u8> {
    Seq::new(
        if count > 0 {
            count as nat
        } else {
            0
        },
        |i: int| 48u8,
    )
}

/// The decimal digits of `n`, with digits 0 before them as far as they
/// are fewer than `width`.
pub open spec fn decimal_padded(n: nat, width: nat) -> Seq<u8> {
    zeros(width - decimal(n).len()) + decimal(n)
}

/// The decimal digits of `n`, the highest first.
pub fn decimal_digits(n: u64) -> (r: Vec<u8>)
    ensures
        r@ == decimal(n as nat),
{
    let mut reversed: Vec<u8> = Vec::new();
    let mut rest = n;
    while rest >= 10
        invariant
            decimal(n as nat) == decimal(rest as nat) + reversed@.reverse(),
        decreases rest,
    {
        let digit = 48 + (rest % 10) as u8;
        let ghost before = reversed@;
        reversed.push(digit);
        proof {
            assert(reversed@.reverse() =~= seq![digit] + before.reverse());
            assert(decimal(rest as nat) == decimal((rest / 10) as nat).push(digit));
            assert(decimal((rest / 10) as nat).push(digit) + before.reverse() =~= decimal(
                (rest / 10) as nat,
            ) + reversed@.reverse());
        }
        rest = rest / 10;
    }
    let ghost before = reversed@;
    reversed.push(48 + rest as u8);
    proof {
        assert(reversed@.reverse() =~= seq![(48 + rest) as u8] + before.reverse());
        assert(decimal(rest as nat) =~= seq![(48 + rest) as u8]);
    }
    let mut digits: Vec<u8> = Vec::new();
    let mut i: usize = reversed.len();
    while i > 0
        invariant
            i <= reversed.len(),
            digits@ == reversed@.reverse().take(reversed.len() - i),
        decreases i,
    {
        i = i - 1;
        digits.push(reversed[i]);
        proof {
            assert(digits@ =~= reversed@.reverse().take(reversed.len() - i));
        }
    }
    proof {
        assert(reversed@.reverse().take(reversed.len() as int) =~= reversed@.reverse());
    }
    digits
}

/// Appends to `out` the decimal digits of `n`, with digits 0 before them
/// as far as they are fewer than `width`.
pub fn push_decimal_padded(out: &mut Vec<u8>, n: u64, width: usize)
    ensures
        final(out)@ == old(out)@ + decimal_padded(n as nat, width as nat),
{
    let digits = decimal_digits(n);
    let ghost before = out@;
    let mut k: usize = digits.len();
    proof {
        assert(out@ =~= before + zeros(0));
    }
    while k < width
        invariant
            digits.len() <= k,
            k <= width || k == digits.len(),
            out@ == before + zeros(k - digits.len()),
        decreases width - k,
    {
        out.push(48u8);
        proof {
            assert(out@ =~= before + zeros(k + 1 - digits.len()));
        }
        k = k + 1;
    }
    let ghost padded = out@;
    let mut i: usize = 0;
    proof {
        assert(padded =~= before + zeros(width - digits.len()));
        assert(out@ =~= padded + digits@.take(0));
    }
    while i < digits.len()
        invariant
            i <= digits.len(),
            out@ == padded + digits@.take(i as int),
        decreases digits.len() - i,
    {
        out.push(digits[i]);
        proof {
            assert(out@ =~= padded + digits@.take(i + 1));
        }
        i = i + 1;
    }
    proof {
        assert(digits@.take(digits.len() as int) =~= digits@);
        assert(out@ =~= before + decimal_padded(n as nat, width as nat));
    }
}

/// The lowest `count` bytes of `x`, the highest first.
pub open spec fn be_bytes(x: nat, count: nat) -> Seq<u8>
    decreases count,
{
    if count == 0 {
        Seq::empty()
    } else {
        be_bytes(x / 256, (count - 1) as nat).push((x % 256) as u8)
    }
}

/// What follows a user key in a full key: the epoch, such that later
/// epochs order first.
pub open spec fn epoch_suffix(epoch: HummockEpoch) -> Seq<u8> {
    be_bytes((u64::MAX - epoch) as nat, 8)
}

/// The full key of `user_key` at `epoch`.
pub fn key_with_epoch(user_key: Vec<u8>, epoch: HummockEpoch) -> (r: Vec<u8>)
    ensures
        r@ == user_key@ + epoch_suffix(epoch),
{
    let mut rest: u64 = u64::MAX - epoch;
    let mut low_first: Vec<u8> = Vec::new();
    let mut i: usize = 0;
    while i < 8
        invariant
            i <= 8,
            low_first.len() == i,
            epoch_suffix(epoch) == be_bytes(rest as nat, (8 - i) as nat) + low_first@.reverse(),
        decreases 8 - i,
    {
        let byte = (rest % 256) as u8;
        let ghost before = low_first@;
        low_first.push(byte);
        proof {
            assert(low_first@.reverse() =~= seq![byte] + before.reverse());
            assert(be_bytes(rest as nat, (8 - i) as nat) == be_bytes(
                (rest / 256) as nat,
                (8 - i - 1) as nat,
            ).push(byte));
            assert(be_bytes((rest / 256) as nat, (8 - i - 1) as nat).push(byte) + before.reverse()
                =~= be_bytes((rest / 256) as nat, (8 - i - 1) as nat) + low_first@.reverse());
        }
        rest = rest / 256;
        i = i + 1;
    }
    let mut key = user_key;
    let ghost given = key@;
    let mut k: usize = 8;
    while k > 0
        invariant
            k <= 8,
            low_first.len() == 8,
            key@ == given + low_first@.reverse().take(8 - k),
        decreases k,
    {
        k = k - 1;
        key.push(low_first[k]);
        proof {
            assert(key@ =~= given + low_first@.reverse().take(8 - k));
        }
    }
    proof {
        assert(low_first@.reverse().take(8) =~= low_first@.reverse());
        assert(be_bytes(rest as nat, 0) + low_first@.reverse() =~= low_first@.reverse());
    }
    key
}

/// The bytes between the table and the index in a key for trying out.
pub open spec fn key_test_infix() -> Seq<u8> {
    seq![0u8, 0u8, 95u8, 107u8, 101u8, 121u8, 95u8, 116u8, 101u8, 115u8, 116u8, 95u8]
}

/// The key `table`, two bytes 0, `_key_test_`, `idx`, at the epoch `ts`:
/// the table in three digits, the index in five.
pub open spec fn test_key(table: u64, idx: usize, ts: HummockEpoch) -> Seq<u8> {
    decimal_padded(table as nat, 3) + key_test_infix() + decimal_padded(idx as nat, 5)
        + epoch_suffix(ts)
}

/// Generate keys like `001_key_test_00002` with timestamp `epoch`.
pub fn iterator_test_key_of_epoch(table: HummockSstableObjectId, idx: usize, ts: HummockEpoch) -> (r:
    Vec<u8>)
    ensures
        r@ == test_key(table, idx, ts),
{
    // key format: {prefix_index}_version
    let mut key: Vec<u8> = Vec::new();
    push_decimal_padded(&mut key, table, 3);
    let ghost head = key@;
    key.push(0u8);
    key.push(0u8);
    key.push(95u8);
    key.push(107u8);
    key.push(101u8);
    key.push(121u8);
    key.push(95u8);
    key.push(116u8);
    key.push(101u8);
    key.push(115u8);
    key.push(116u8);
    key.push(95u8);
    proof {
        assert(key@ =~= head + key_test_infix());
    }
    push_decimal_padded(&mut key, idx as u64, 5);
    let r = key_with_epoch(key, ts);
    proof {
        assert(r@ =~= test_key(table, idx, ts));
    }
    r
}

/// The table file `i` of those that `generate_test_sstables_with_table_id`
/// makes.
pub open spec fn test_sstable_view(
    epoch: HummockEpoch,
    table_id: TableId,
    sst_id: HummockSstableObjectId,
    i: int,
) -> SstableInfoView {
    SstableInfoView {
        object_id: sst_id,
        sst_id,
        key_range: Some(
            KeyRangeView {
                left: test_key(table_id as u64, (i + 1) as usize, epoch),
                right: test_key(table_id as u64, ((i + 1) * 10) as usize, epoch),
                right_exclusive: false,
            },
        ),
        file_size: 2,
        table_ids: seq![table_id],
        uncompressed_file_size: 2,
        min_epoch: 0,
        max_epoch: epoch,
        range_tombstone_count: 0,
    }
}

/// The table files that `generate_test_sstables_with_table_id` makes:
/// for each id of `sst_ids` a file of table `table_id` at `epoch`.
pub open spec fn test_sstables(
    epoch: HummockEpoch,
    table_id: TableId,
    sst_ids: Seq<HummockSstableObjectId>,
) -> Seq<SstableInfoView> {
    Seq::new(sst_ids.len(), |i: int| test_sstable_view(epoch, table_id, sst_ids[i], i))
}

/// For each id of `sst_ids` a table file of table `table_id` at `epoch`.
pub fn generate_test_sstables_with_table_id(
    epoch: HummockEpoch,
    table_id: TableId,
    sst_ids: Vec<HummockSstableObjectId>,
) -> (r: Vec<SstableInfo>)
    requires
        (sst_ids.len() + 1) * 10 <= usize::MAX,
    ensures
        r.len() == sst_ids.len(),
        forall|i: int|
            0 <= i < r.len() ==> (#[trigger] r[i])@ == test_sstable_view(
                epoch,
                table_id,
                sst_ids[i],
                i,
            ),
{
    let mut sst_info: Vec<SstableInfo> = Vec::new();
    let mut i: usize = 0;
    while i < sst_ids.len()
        invariant
            i <= sst_ids.len(),
            (sst_ids.len() + 1) * 10 <= usize::MAX,
            sst_info.len() == i,
            forall|j: int|
                0 <= j < i ==> (#[trigger] sst_info[j])@ == test_sstable_view(
                    epoch,
                    table_id,
                    sst_ids[j],
                    j,
                ),
        decreases sst_ids.len() - i,
    {
        let sst_id = sst_ids[i];
        let mut table_ids: Vec<TableId> = Vec::new();
        table_ids.push(table_id);
        proof {
            assert(table_ids@ =~= seq![table_id]);
        }
        sst_info.push(
            SstableInfo {
                object_id: sst_id,
                sst_id,
                key_range: Some(
                    KeyRange {
                        left: iterator_test_key_of_epoch(table_id as u64, i + 1, epoch),
                        right: iterator_test_key_of_epoch(table_id as u64, (i + 1) * 10, epoch),
                        right_exclusive: false,
                    },
                ),
                file_size: 2,
                table_ids,
                uncompressed_file_size: 2,
                min_epoch: 0,
                max_epoch: epoch,
                range_tombstone_count: 0,
            },
        );
        i = i + 1;
    }
    sst_info
}

/// The table file `i` of those that `generate_test_tables` makes.
pub open spec fn test_table_view(
    epoch: HummockEpoch,
    sst_id: HummockSstableObjectId,
    i: int,
) -> SstableInfoView {
    SstableInfoView {
        object_id: sst_id,
        sst_id,
        key_range: Some(
            KeyRangeView {
                left: test_key(sst_id, (i + 1) as usize, epoch),
                right: test_key(sst_id, ((i + 1) * 10) as usize, epoch),
                right_exclusive: false,
            },
        ),
        file_size: 2,
        table_ids: seq![sst_id as u32, (sst_id * 10000) as u32],
        uncompressed_file_size: 2,
        min_epoch: 0,
        max_epoch: epoch,
        range_tombstone_count: 0,
    }
}

/// For each id of `sst_ids` a table file at `epoch` that holds two tables
/// named after the id.
pub fn generate_test_tables(epoch: HummockEpoch, sst_ids: Vec<HummockSstableObjectId>) -> (r: Vec<
    SstableInfo,
>)
    requires
        (sst_ids.len() + 1) * 10 <= usize::MAX,
        forall|i: int| 0 <= i < sst_ids.len() ==> (#[trigger] sst_ids[i]) * 10000 <= u32::MAX,
    ensures
        r.len() == sst_ids.len(),
        forall|i: int|
            0 <= i < r.len() ==> (#[trigger] r[i])@ == test_table_view(epoch, sst_ids[i], i),
{
    let mut sst_info: Vec<SstableInfo> = Vec::new();
    let mut i: usize = 0;
    while i < sst_ids.len()
        invariant
            i <= sst_ids.len(),
            (sst_ids.len() + 1) * 10 <= usize::MAX,
            forall|j: int| 0 <= j < sst_ids.len() ==> (#[trigger] sst_ids[j]) * 10000 <= u32::MAX,
            sst_info.len() == i,
            forall|j: int|
                0 <= j < i ==> (#[trigger] sst_info[j])@ == test_table_view(epoch, sst_ids[j], j),
        decreases sst_ids.len() - i,
    {
        let sst_id = sst_ids[i];
        let mut table_ids: Vec<TableId> = Vec::new();
        table_ids.push(sst_id as u32);
        table_ids.push(sst_id as u32 * 10000);
        proof {
            assert(table_ids@ =~= seq![sst_id as u32, (sst_id * 10000) as u32]);
        }
        sst_info.push(
            SstableInfo {
                object_id: sst_id,
                sst_id,
                key_range: Some(
                    KeyRange {
                        left: iterator_test_key_of_epoch(sst_id, i + 1, epoch),
                        right: iterator_test_key_of_epoch(sst_id, (i + 1) * 10, epoch),
                        right_exclusive: false,
                    },
                ),
                file_size: 2,
                table_ids,
                uncompressed_file_size: 2,
                min_epoch: 0,
                max_epoch: epoch,
                range_tombstone_count: 0,
            },
        );
        i = i + 1;
    }
    sst_info
}

/// The files `files`, each for the default group, without statistics.
pub open spec fn local_files(files: Seq<SstableInfoView>) -> Seq<ExtendedSstableInfoView> {
    files.map_values(
        |f: SstableInfoView|
            ExtendedSstableInfoView {
                compaction_group_id: StaticCompactionGroupId::StateDefault.id_spec(),
                sst_info: f,
                table_stats: Map::empty(),
            },
    )
}

/// The files `ssts`, each for the default group, without statistics.
pub fn to_local_sstable_info(ssts: &Vec<SstableInfo>) -> (r: Vec<LocalSstableInfo>)
    ensures
        r.len() == ssts.len(),
        forall|i: int|
            0 <= i < r.len() ==> (#[trigger] r[i])@ == (ExtendedSstableInfoView {
                compaction_group_id: StaticCompactionGroupId::StateDefault.id_spec(),
                sst_info: ssts[i]@,
                table_stats: Map::empty(),
            }),
{
    let mut out: Vec<LocalSstableInfo> = Vec::new();
    let mut i: usize = 0;
    while i < ssts.len()
        invariant
            i <= ssts.len(),
            out.len() == i,
            forall|j: int|
                0 <= j < i ==> (#[trigger] out[j])@ == (ExtendedSstableInfoView {
                    compaction_group_id: StaticCompactionGroupId::StateDefault.id_spec(),
                    sst_info: ssts[j]@,
                    table_stats: Map::empty(),
                }),
        decreases ssts.len() - i,
    {
        out.push(
            LocalSstableInfo::with_compaction_group(
                StaticCompactionGroupId::StateDefault.id(),
                ssts[i].clone(),
            ),
        );
        i = i + 1;
    }
    out
}

/// The ids never go down.
pub open spec fn ascending(ids: Seq<HummockSstableObjectId>) -> bool {
    forall|i: int, j: int| 0 <= i <= j < ids.len() ==> ids[i] <= ids[j]
}

/// Calls `Itertools::sorted` of the crate itertools on ids. The contract
/// claims what the crate documents: the same ids, each as often as it
/// came, in ascending order.
#[verifier::external_body]
pub(crate) fn sorted_object_ids(ids: Vec<HummockSstableObjectId>) -> (r: Vec<HummockSstableObjectId>)
    ensures
        ascending(r@),
        r@.to_multiset() == ids@.to_multiset(),
{
    ids.into_iter().sorted().collect_vec()
}

/// The ids of the objects that hold the files `ssts`, in their order.
pub open spec fn object_ids_of(ssts: Seq<SstableInfoView>) -> Seq<HummockSstableObjectId> {
    ssts.map_values(|s: SstableInfoView| s.object_id)
}

/// Appends to `ids` the ids of the objects that hold `ssts`.
fn push_object_ids(ids: &mut Vec<HummockSstableObjectId>, ssts: &Vec<SstableInfo>)
    ensures
        final(ids)@ == old(ids)@ + object_ids_of(ssts_view(ssts@)),
{
    let ghost before = ids@;
    let ghost all = object_ids_of(ssts_view(ssts@));
    let mut i: usize = 0;
    proof {
        assert(ids@ =~= before + all.take(0));
    }
    while i < ssts.len()
        invariant
            i <= ssts.len(),
            all == object_ids_of(ssts_view(ssts@)),
            ids@ == before + all.take(i as int),
        decreases ssts.len() - i,
    {
        ids.push(ssts[i].get_object_id());
        proof {
            assert(all[i as int] == ssts@[i as int].object_id);
            assert(ids@ =~= before + all.take(i + 1));
        }
        i = i + 1;
    }
    proof {
        assert(all.take(ssts.len() as int) =~= all);
    }
}

/// The ids of the objects that hold the files `sstables`, in ascending
/// order.
pub fn get_sorted_object_ids(sstables: &Vec<SstableInfo>) -> (r: Vec<HummockSstableObjectId>)
    ensures
        ascending(r@),
        r@.to_multiset() == object_ids_of(ssts_view(sstables@)).to_multiset(),
{
    let mut ids: Vec<HummockSstableObjectId> = Vec::new();
    push_object_ids(&mut ids, sstables);
    proof {
        assert(ids@ =~= object_ids_of(ssts_view(sstables@)));
    }
    sorted_object_ids(ids)
}

/// The ids of the objects that hold the files of `levels`, level by
/// level.
pub open spec fn level_object_ids(levels: Seq<crate::levels::LevelView>) -> Seq<
    HummockSstableObjectId,
>
    decreases levels.len(),
{
    if levels.len() == 0 {
        Seq::empty()
    } else {
        level_object_ids(levels.drop_last()) + object_ids_of(levels.last().table_infos)
    }
}

/// Appends to `ids` the ids of the objects that hold the files of
/// `levels`.
fn push_level_object_ids(ids: &mut Vec<HummockSstableObjectId>, levels: &Vec<Level>)
    ensures
        final(ids)@ == old(ids)@ + level_object_ids(crate::levels::levels_view(levels@)),
{
    let ghost before = ids@;
    let ghost all = crate::levels::levels_view(levels@);
    let mut i: usize = 0;
    proof {
        assert(all.take(0) =~= Seq::empty());
        assert(ids@ =~= before + level_object_ids(all.take(0)));
    }
    while i < levels.len()
        invariant
            i <= levels.len(),
            all == crate::levels::levels_view(levels@),
            ids@ == before + level_object_ids(all.take(i as int)),
        decreases levels.len() - i,
    {
        push_object_ids(ids, &levels[i].table_infos);
        proof {
            assert(all.take(i + 1).drop_last() =~= all.take(i as int));
            assert(all.take(i + 1).last() == levels@[i as int]@);
            assert(ids@ =~= before + level_object_ids(all.take(i + 1)));
        }
        i = i + 1;
    }
    proof {
        assert(all.take(levels.len() as int) =~= all);
    }
}

/// The ids of the objects that hold the files of the default group of
/// `hummock_version`, in ascending order; none where the version has no
/// such group.
pub fn get_sorted_committed_object_ids(hummock_version: &HummockVersion) -> (r: Vec<
    HummockSstableObjectId,
>)
    ensures
        ascending(r@),
        ({
            let g = StaticCompactionGroupId::StateDefault.id_spec();
            let levels = hummock_version@.levels;
            if levels.contains_key(g) {
                r@.to_multiset() == (level_object_ids(levels[g].levels) + level_object_ids(
                    levels[g].l0.sub_levels,
                )).to_multiset()
            } else {
                r@ == Seq::<HummockSstableObjectId>::empty()
            }
        }),
{
    broadcast use vstd::std_specs::hash::group_hash_axioms;

    let levels = match hummock_version.levels.get(&StaticCompactionGroupId::StateDefault.id()) {
        Some(levels) => levels,
        None => {
            return Vec::new();
        },
    };
    let mut ids: Vec<HummockSstableObjectId> = Vec::new();
    push_level_object_ids(&mut ids, &levels.levels);
    push_level_object_ids(&mut ids, &levels.l0.sub_levels);
    proof {
        let g = StaticCompactionGroupId::StateDefault.id_spec();
        assert(hummock_version@.levels[g] == levels@);
        assert(ids@ =~= level_object_ids(levels@.levels) + level_object_ids(
            levels@.l0.sub_levels,
        ));
    }
    sorted_object_ids(ids)
}

/// The worker that stands for the manager itself.
pub const META_NODE_ID: HummockContextId = 0;

/// For each of the files `ssts` the worker `context_id` as its writer.
pub open spec fn written_by(
    ssts: Seq<ExtendedSstableInfoView>,
    context_id: HummockContextId,
) -> Map<HummockSstableObjectId, HummockContextId> {
    Map::new(
        |id: HummockSstableObjectId|
            exists|i: int| 0 <= i < ssts.len() && (#[trigger] ssts[i]).sst_info.object_id == id,
        |id: HummockSstableObjectId| context_id,
    )
}

/// For each of the files `ssts` the worker `context_id` as its writer.
pub fn sst_to_worker(ssts: &Vec<LocalSstableInfo>, context_id: HummockContextId) -> (r: HashMap<
    HummockSstableObjectId,
    HummockContextId,
>)
    ensures
        r@ == written_by(extended_view(ssts@), context_id),
{
    broadcast use vstd::std_specs::hash::group_hash_axioms;

    let ghost all = extended_view(ssts@);
    let mut sst_to_worker: HashMap<HummockSstableObjectId, HummockContextId> = HashMap::new();
    let mut i: usize = 0;
    proof {
        assert(sst_to_worker@ =~= written_by(all.take(0), context_id));
    }
    while i < ssts.len()
        invariant
            i <= ssts.len(),
            all == extended_view(ssts@),
            sst_to_worker@ == written_by(all.take(i as int), context_id),
        decreases ssts.len() - i,
    {
        sst_to_worker.insert(ssts[i].sst_info.get_object_id(), context_id);
        proof {
            let a = all.take(i as int);
            let b = all.take(i + 1);
            assert(b[i as int] == ssts@[i as int]@);
            assert forall|id: HummockSstableObjectId|
                written_by(b, context_id).contains_key(id) == (written_by(
                    a,
                    context_id,
                ).contains_key(id) || id == ssts@[i as int].sst_info.object_id) by {
                if written_by(b, context_id).contains_key(id) {
                    let k = choose|k: int|
                        0 <= k < b.len() && (#[trigger] b[k]).sst_info.object_id == id;
                    if k < i {
                        assert(a[k].sst_info.object_id == id);
                    }
                }
                if written_by(a, context_id).contains_key(id) {
                    let k = choose|k: int|
                        0 <= k < a.len() && (#[trigger] a[k]).sst_info.object_id == id;
                    assert(b[k].sst_info.object_id == id);
                }
            }
            assert(sst_to_worker@ =~= written_by(b, context_id));
        }
        i = i + 1;
    }
    proof {
        assert(all.take(ssts.len() as int) =~= all);
    }
    sst_to_worker
}

/// Commits `epoch` for all tables with the files `ssts`, which the
/// manager itself is taken to have written.
pub fn commit_from_meta_node(
    hummock_manager_ref: &mut HummockManager,
    epoch: HummockEpoch,
    ssts: Vec<LocalSstableInfo>,
    new_sst_id: u64,
) -> (r: Result<(), Error>)
    requires
        old(hummock_manager_ref).wf(),
        old(hummock_manager_ref).versioning.current_version.id < u64::MAX,
        new_sst_id + commit_ids_needed(
            old(hummock_manager_ref).versioning.current_version@,
            commit_of_all_tables(
                old(hummock_manager_ref).versioning.current_version@,
                extended_view(ssts@),
                written_by(extended_view(ssts@), META_NODE_ID),
                epoch,
            ),
        ) <= u64::MAX,
    ensures
        ({
            let before = old(hummock_manager_ref);
            let v = before.versioning.current_version@;
            let info = commit_of_all_tables(
                v,
                extended_view(ssts@),
                written_by(extended_view(ssts@), META_NODE_ID),
                epoch,
            );
            if before.versioning.disable_commit_epochs {
                r is Ok && *final(hummock_manager_ref) == *before
            } else if epoch <= v.max_committed_epoch {
                r is Err && *final(hummock_manager_ref) == *before
            } else {
                &&& r is Ok
                &&& final(hummock_manager_ref).wf()
                &&& final(hummock_manager_ref).versioning.current_version@ == v.applied(
                    commit_delta(v, info, new_sst_id),
                )
                &&& final(hummock_manager_ref).latest_snapshot == (HummockSnapshot {
                    committed_epoch: epoch,
                    current_epoch: epoch,
                })
            }
        }),
{
    broadcast use vstd::std_specs::hash::group_hash_axioms;

    let sst_to_worker = sst_to_worker(&ssts, META_NODE_ID);
    let mut valid_context_ids: HashSet<HummockContextId> = HashSet::new();
    valid_context_ids.insert(META_NODE_ID);
    proof {
        assert forall|sst_id: HummockSstableObjectId|
            !written_by_unknown(sst_to_worker@, valid_context_ids@, sst_id) by {}
    }
    hummock_manager_ref.commit_epoch_for_test(
        epoch,
        ssts,
        sst_to_worker,
        &valid_context_ids,
        new_sst_id,
    )
}

/// The epoch that trials count as their `value`-th: a real epoch keeps
/// its low 16 bits for other use.
pub fn test_epoch(value: u64) -> (r: HummockEpoch)
    requires
        value <= 0xffff_ffff_ffff,
    ensures
        r == value * 65536,
{
    value * 65536
}

/// Commits `epoch` for all tables with a file of table 1 for each id of
/// `sst_ids`, written by worker `context_id`; returns the files.
pub fn add_ssts(
    epoch: HummockEpoch,
    hummock_manager: &mut HummockManager,
    context_id: HummockContextId,
    sst_ids: Vec<HummockSstableObjectId>,
    new_sst_id: u64,
) -> (r: Result<Vec<SstableInfo>, Error>)
    requires
        epoch <= 0xffff_ffff_ffff,
        (sst_ids.len() + 1) * 10 <= usize::MAX,
        old(hummock_manager).wf(),
        old(hummock_manager).versioning.current_version.id < u64::MAX,
        new_sst_id + sst_ids.len() <= u64::MAX,
    ensures
        ({
            let before = *old(hummock_manager);
            let after = *final(hummock_manager);
            let v = before.versioning.current_version@;
            let files = test_sstables((epoch * 65536) as u64, 1, sst_ids@);
            let info = commit_of_all_tables(
                v,
                local_files(files),
                written_by(local_files(files), context_id),
                epoch,
            );
            if before.versioning.disable_commit_epochs {
                r is Ok && ssts_view(r->Ok_0@) == files && after == before
            } else if epoch <= v.max_committed_epoch {
                r == Err::<Vec<SstableInfo>, Error>(
                    Error::EpochNotAfterCommitted {
                        epoch,
                        max_committed_epoch: v.max_committed_epoch,
                    },
                ) && after == before
            } else {
                r is Ok && ssts_view(r->Ok_0@) == files && before.committed(
                    after,
                    info,
                    new_sst_id,
                )
            }
        }),
{
    broadcast use vstd::std_specs::hash::group_hash_axioms;

    let test_tables = generate_test_sstables_with_table_id(test_epoch(epoch), 1, sst_ids);
    let ssts = to_local_sstable_info(&test_tables);
    let sst_to_worker = sst_to_worker(&ssts, context_id);
    let mut valid_context_ids: HashSet<HummockContextId> = HashSet::new();
    valid_context_ids.insert(context_id);
    proof {
        assert forall|sst_id: HummockSstableObjectId|
            !written_by_unknown(sst_to_worker@, valid_context_ids@, sst_id) by {}
        let v = hummock_manager.versioning.current_version@;
        let info = commit_of_all_tables(v, extended_view(ssts@), sst_to_worker@, epoch);
        let files = test_sstables((epoch * 65536) as u64, 1, sst_ids@);
        assert(ssts_view(test_tables@) =~= files);
        assert(extended_view(ssts@) =~= local_files(files));
        crate::regroup_laws::lemma_ids_needed_at_most_tables(
            info.sstables,
            crate::commit_epoch::table_groups(
                v.state_table_info,
                crate::commit_epoch::new_table_groups(info.new_table_fragment_info),
            ),
            v.levels.dom(),
        );
        assert forall|i: int| 0 <= i < info.sstables.len() implies (
        #[trigger] info.sstables[i]).sst_info.table_ids.len() == 1 by {
            assert(info.sstables[i] == ssts@[i]@);
        }
        crate::regroup_laws::lemma_sum_of_ones(info.sstables);
    }
    match hummock_manager.commit_epoch_for_test(
        epoch,
        ssts,
        sst_to_worker,
        &valid_context_ids,
        new_sst_id,
    ) {
        Ok(()) => Ok(test_tables),
        Err(e) => Err(e),
    }
}

} // verus!
