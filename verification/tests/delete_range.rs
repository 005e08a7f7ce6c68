use hummock_core::delete_range_aggregator::{
    get_min_delete_range_epoch_from_sstable, CompactionDeleteRangeIterator,
    SstableDeleteRangeIterator,
};
use hummock_core::delete_range_iterator::{
    ForwardMergeRangeIterator, SharedBufferDeleteRangeIterator,
};
use hummock_core::epoch::{is_max_epoch, HummockEpoch, MAX_EPOCH};
use hummock_core::key::{KeyBound, PointRange, TableId, UserKey};
use hummock_core::sstable::{MonotonicDeleteEvent, Sstable, SstableMeta};

fn test_epoch(value: u64) -> u64 {
    value << 16
}

fn test_user_key(table_key: &[u8]) -> UserKey {
    UserKey::new(0, table_key.to_vec())
}

struct CompactionDeleteRangesBuilder {
    iter: ForwardMergeRangeIterator,
}

impl CompactionDeleteRangesBuilder {
    fn default() -> Self {
        Self { iter: ForwardMergeRangeIterator::new(HummockEpoch::MAX) }
    }

    fn add_delete_events_for_test(
        &mut self,
        epoch: HummockEpoch,
        table_id: TableId,
        delete_ranges: Vec<(KeyBound, KeyBound)>,
    ) {
        self.iter.add_batch_iter(SharedBufferDeleteRangeIterator::new(
            test_epoch(epoch),
            table_id,
            delete_ranges,
        ));
    }

    fn build_for_compaction(self) -> CompactionDeleteRangeIterator {
        CompactionDeleteRangeIterator::new(self.iter)
    }
}

fn included(key: &[u8]) -> KeyBound {
    KeyBound::Included(key.to_vec())
}

fn excluded(key: &[u8]) -> KeyBound {
    KeyBound::Excluded(key.to_vec())
}

fn event(key: &[u8], exclude: bool, epoch: u64) -> MonotonicDeleteEvent {
    MonotonicDeleteEvent {
        event_key: PointRange::from_user_key(test_user_key(key), exclude),
        new_epoch: epoch,
    }
}

fn test_sstable() -> Sstable {
    Sstable::new(
        7,
        SstableMeta {
            monotonic_tombstone_events: vec![
                event(b"bbb", false, 5),
                event(b"ddd", false, MAX_EPOCH),
                event(b"fff", true, 9),
                event(b"hhh", false, MAX_EPOCH),
            ],
        },
    )
}

#[test]
fn test_compaction_delete_range_iterator() {
    let mut builder = CompactionDeleteRangesBuilder::default();
    let table_id: TableId = 0;
    builder.add_delete_events_for_test(
        9,
        table_id,
        vec![
            (included(b"aaaaaa"), excluded(b"bbbddd")),
            (included(b"bbbfff"), excluded(b"ffffff")),
            (included(b"gggggg"), excluded(b"hhhhhh")),
        ],
    );
    builder.add_delete_events_for_test(
        12,
        table_id,
        vec![(included(b"aaaaaa"), excluded(b"bbbccc"))],
    );
    builder.add_delete_events_for_test(
        8,
        table_id,
        vec![(excluded(b"bbbeee"), included(b"eeeeee"))],
    );
    builder.add_delete_events_for_test(
        6,
        table_id,
        vec![(included(b"bbbaab"), excluded(b"bbbdddf"))],
    );
    builder.add_delete_events_for_test(7, table_id, vec![(excluded(b"hhhhhh"), KeyBound::Unbounded)]);
    let mut iter = builder.build_for_compaction();
    iter.rewind();

    assert_eq!(
        iter.earliest_delete_which_can_see_key_for_test(&test_user_key(b"bbb"), test_epoch(13)),
        HummockEpoch::MAX,
    );
    assert_eq!(
        iter.earliest_delete_which_can_see_key_for_test(&test_user_key(b"bbb"), test_epoch(11)),
        test_epoch(12)
    );
    assert_eq!(
        iter.earliest_delete_which_can_see_key_for_test(&test_user_key(b"bbb"), test_epoch(8)),
        test_epoch(9)
    );
    assert_eq!(
        iter.earliest_delete_which_can_see_key_for_test(&test_user_key(b"bbbaaa"), test_epoch(8)),
        test_epoch(9)
    );
    assert_eq!(
        iter.earliest_delete_which_can_see_key_for_test(&test_user_key(b"bbbccd"), test_epoch(8)),
        test_epoch(9)
    );

    assert_eq!(
        iter.earliest_delete_which_can_see_key_for_test(&test_user_key(b"bbbddd"), test_epoch(8)),
        HummockEpoch::MAX,
    );
    assert_eq!(
        iter.earliest_delete_which_can_see_key_for_test(&test_user_key(b"bbbeee"), test_epoch(8)),
        HummockEpoch::MAX,
    );

    assert_eq!(
        iter.earliest_delete_which_can_see_key_for_test(&test_user_key(b"bbbeef"), test_epoch(10)),
        HummockEpoch::MAX,
    );
    assert_eq!(
        iter.earliest_delete_which_can_see_key_for_test(&test_user_key(b"eeeeee"), test_epoch(8)),
        test_epoch(8)
    );
    assert_eq!(
        iter.earliest_delete_which_can_see_key_for_test(&test_user_key(b"gggggg"), test_epoch(8)),
        test_epoch(9)
    );
    assert_eq!(
        iter.earliest_delete_which_can_see_key_for_test(&test_user_key(b"hhhhhh"), test_epoch(6)),
        HummockEpoch::MAX,
    );
    assert_eq!(
        iter.earliest_delete_which_can_see_key_for_test(&test_user_key(b"iiiiii"), test_epoch(6)),
        test_epoch(7)
    );
}

#[test]
fn test_delete_range_split() {
    let table_id: TableId = 0;
    let mut builder = CompactionDeleteRangesBuilder::default();
    builder.add_delete_events_for_test(13, table_id, vec![(included(b"aaaa"), excluded(b"cccc"))]);
    builder.add_delete_events_for_test(10, table_id, vec![(excluded(b"cccc"), excluded(b"dddd"))]);
    builder.add_delete_events_for_test(12, table_id, vec![(included(b"cccc"), included(b"eeee"))]);
    builder.add_delete_events_for_test(15, table_id, vec![(excluded(b"eeee"), excluded(b"ffff"))]);
    let compaction_delete_range = builder.build_for_compaction();
    let split_ranges = compaction_delete_range
        .get_tombstone_between(&test_user_key(b"bbbb"), &test_user_key(b"eeeeee"));
    assert_eq!(6, split_ranges.len());
    assert_eq!(
        PointRange::from_user_key(test_user_key(b"bbbb"), false),
        split_ranges[0].event_key
    );
    assert_eq!(
        PointRange::from_user_key(test_user_key(b"cccc"), false),
        split_ranges[1].event_key
    );
    assert_eq!(
        PointRange::from_user_key(test_user_key(b"cccc"), true),
        split_ranges[2].event_key
    );
    assert_eq!(
        PointRange::from_user_key(test_user_key(b"dddd"), false),
        split_ranges[3].event_key
    );
    assert_eq!(
        PointRange::from_user_key(test_user_key(b"eeee"), true),
        split_ranges[4].event_key
    );
    assert_eq!(
        PointRange::from_user_key(test_user_key(b"eeeeee"), false),
        split_ranges[5].event_key
    );
}

#[test]
fn split_ranges_carry_the_earliest_epoch_of_each_stretch() {
    let table_id: TableId = 0;
    let mut builder = CompactionDeleteRangesBuilder::default();
    builder.add_delete_events_for_test(13, table_id, vec![(included(b"aaaa"), excluded(b"cccc"))]);
    builder.add_delete_events_for_test(10, table_id, vec![(excluded(b"cccc"), excluded(b"dddd"))]);
    builder.add_delete_events_for_test(12, table_id, vec![(included(b"cccc"), included(b"eeee"))]);
    builder.add_delete_events_for_test(15, table_id, vec![(excluded(b"eeee"), excluded(b"ffff"))]);
    let split_ranges = builder
        .build_for_compaction()
        .get_tombstone_between(&test_user_key(b"bbbb"), &test_user_key(b"eeeeee"));
    let epochs: Vec<u64> = split_ranges.iter().map(|e| e.new_epoch).collect();
    assert_eq!(
        epochs,
        vec![
            test_epoch(13),
            test_epoch(12),
            test_epoch(10),
            test_epoch(12),
            test_epoch(15),
            HummockEpoch::MAX
        ]
    );
}

#[test]
fn tombstones_between_without_a_delete_are_none() {
    let mut builder = CompactionDeleteRangesBuilder::default();
    builder.add_delete_events_for_test(13, 0, vec![(included(b"aaaa"), excluded(b"cccc"))]);
    let split_ranges = builder
        .build_for_compaction()
        .get_tombstone_between(&test_user_key(b"dddd"), &test_user_key(b"eeee"));
    assert!(split_ranges.is_empty());
}

#[test]
fn sstable_cursor_reports_the_epoch_before_its_position() {
    let mut iter = SstableDeleteRangeIterator::new(test_sstable());
    assert!(iter.is_valid());
    assert!(!iter.is_last_range());
    assert_eq!(iter.current_epoch(), MAX_EPOCH);
    assert_eq!(
        *iter.next_extended_user_key(),
        PointRange::from_user_key(test_user_key(b"bbb"), false)
    );
    iter.next();
    assert_eq!(iter.current_epoch(), 5);
    iter.next();
    assert_eq!(iter.current_epoch(), MAX_EPOCH);
    iter.next();
    assert_eq!(iter.current_epoch(), 9);
    assert!(iter.is_last_range());
    iter.next();
    assert!(!iter.is_valid());
    assert_eq!(iter.current_epoch(), MAX_EPOCH);
    iter.rewind();
    assert!(iter.is_valid());
    assert_eq!(iter.current_epoch(), MAX_EPOCH);
}

#[test]
fn sstable_cursor_seeks_to_the_first_boundary_after_the_key() {
    let mut iter = SstableDeleteRangeIterator::new(test_sstable());
    iter.seek(&test_user_key(b"aaa"));
    assert_eq!(iter.current_epoch(), MAX_EPOCH);
    assert_eq!(
        *iter.next_extended_user_key(),
        PointRange::from_user_key(test_user_key(b"bbb"), false)
    );
    iter.seek(&test_user_key(b"bbb"));
    assert_eq!(iter.current_epoch(), 5);
    assert_eq!(
        *iter.next_extended_user_key(),
        PointRange::from_user_key(test_user_key(b"ddd"), false)
    );
    // the boundary just after "fff" does not lie at or before "fff"
    iter.seek(&test_user_key(b"fff"));
    assert_eq!(iter.current_epoch(), MAX_EPOCH);
    assert_eq!(
        *iter.next_extended_user_key(),
        PointRange::from_user_key(test_user_key(b"fff"), true)
    );
    iter.seek(&test_user_key(b"zzz"));
    assert!(!iter.is_valid());
}

#[test]
fn min_delete_range_epoch_of_an_sstable() {
    let table = test_sstable();
    assert_eq!(get_min_delete_range_epoch_from_sstable(&table, &test_user_key(b"aaa")), MAX_EPOCH);
    assert_eq!(get_min_delete_range_epoch_from_sstable(&table, &test_user_key(b"bbb")), 5);
    assert_eq!(get_min_delete_range_epoch_from_sstable(&table, &test_user_key(b"ccc")), 5);
    assert_eq!(get_min_delete_range_epoch_from_sstable(&table, &test_user_key(b"ddd")), MAX_EPOCH);
    assert_eq!(get_min_delete_range_epoch_from_sstable(&table, &test_user_key(b"fff")), MAX_EPOCH);
    assert_eq!(get_min_delete_range_epoch_from_sstable(&table, &test_user_key(b"ggg")), 9);
    assert_eq!(get_min_delete_range_epoch_from_sstable(&table, &test_user_key(b"hhh")), MAX_EPOCH);
    let empty = Sstable::new(8, SstableMeta { monotonic_tombstone_events: vec![] });
    assert_eq!(get_min_delete_range_epoch_from_sstable(&empty, &test_user_key(b"ggg")), MAX_EPOCH);
}

#[test]
fn merge_answers_as_the_tables_do_one_by_one() {
    let first = test_sstable();
    let second = Sstable::new(
        9,
        SstableMeta {
            monotonic_tombstone_events: vec![
                event(b"aaa", false, 3),
                event(b"ccc", false, MAX_EPOCH),
                event(b"ggg", false, 4),
                event(b"zzz", false, MAX_EPOCH),
            ],
        },
    );
    let keys: Vec<&[u8]> = vec![b"a", b"aaa", b"bbb", b"ccc", b"eee", b"fff", b"ggg", b"hhh", b"zzz"];
    for since in [0u64, 4, 5, 6, 10] {
        let mut merge = ForwardMergeRangeIterator::new(MAX_EPOCH);
        merge.add_sst_iter(SstableDeleteRangeIterator::new(test_sstable()));
        merge.add_sst_iter(SstableDeleteRangeIterator::new(Sstable::new(
            9,
            SstableMeta {
                monotonic_tombstone_events: vec![
                    event(b"aaa", false, 3),
                    event(b"ccc", false, MAX_EPOCH),
                    event(b"ggg", false, 4),
                    event(b"zzz", false, MAX_EPOCH),
                ],
            },
        )));
        let mut iter = CompactionDeleteRangeIterator::new(merge);
        iter.rewind();
        for key in &keys {
            let user_key = test_user_key(key);
            let mut expected = MAX_EPOCH;
            for table in [&first, &second] {
                let epoch = get_min_delete_range_epoch_from_sstable(table, &user_key);
                if epoch >= since && epoch < expected {
                    expected = epoch;
                }
            }
            assert_eq!(iter.earliest_delete_which_can_see_key_for_test(&user_key, since), expected);
        }
    }
}

#[test]
fn merge_without_a_rewind_is_not_valid() {
    let mut merge = ForwardMergeRangeIterator::new(MAX_EPOCH);
    merge.add_sst_iter(SstableDeleteRangeIterator::new(test_sstable()));
    assert!(!merge.is_valid());
    assert_eq!(merge.earliest_epoch(), MAX_EPOCH);
    merge.rewind();
    assert!(merge.is_valid());
    assert_eq!(
        *merge.next_extended_user_key(),
        PointRange::from_user_key(test_user_key(b"bbb"), false)
    );
    merge.next();
    assert_eq!(merge.earliest_epoch(), 5);
    assert_eq!(merge.earliest_delete_since(6), MAX_EPOCH);
    assert_eq!(merge.current_epoch(), 5);
    let mut bounded = ForwardMergeRangeIterator::new(4);
    bounded.add_sst_iter(SstableDeleteRangeIterator::new(test_sstable()));
    bounded.seek(&test_user_key(b"ccc"));
    assert_eq!(bounded.earliest_epoch(), 5);
    assert_eq!(bounded.current_epoch(), 0);
}

#[test]
fn max_epoch_is_the_only_sentinel() {
    assert!(is_max_epoch(MAX_EPOCH));
    assert!(is_max_epoch(u64::MAX));
    assert!(!is_max_epoch(u64::MAX - 1));
    assert!(!is_max_epoch(0));
}
