//! Cursors over range tombstones: one table's, and the merge of many for
//! compaction.

use vstd::prelude::*;
use crate::delete_range_iterator::{
    lemma_step_consistent, lemma_walk_unfold, ForwardMergeRangeIterator, MergeView,
};
use crate::epoch::{is_max_epoch, HummockEpoch, MAX_EPOCH};
use crate::epoch_set::least_at_least;
use crate::key::{PointRange, PointRangeView, UserKey, UserKeyView};
use crate::sstable::{
    epoch_before, events_sorted, events_view, partition_point, point_delete_epoch,
    search_partition_point, DeleteEventView, MonotonicDeleteEvent, Sstable, TableHolder,
};

verus! {

/// Whether a boundary repeats the one before it: the same table and the
/// same epoch.
pub open spec fn event_repeats(prev: DeleteEventView, next: DeleteEventView) -> bool {
    prev.event_key.left_user_key.table_id == next.event_key.left_user_key.table_id
        && prev.new_epoch == next.new_epoch
}

/// `events` without the boundaries that repeat the last one kept.
pub open spec fn dedup_events(events: Seq<DeleteEventView>) -> Seq<DeleteEventView>
    decreases events.len(),
{
    if events.len() == 0 {
        events
    } else {
        let kept = dedup_events(events.drop_last());
        if kept.len() > 0 && event_repeats(kept.last(), events.last()) {
            kept
        } else {
            kept.push(events.last())
        }
    }
}

/// The end of a walk over the keys up to `largest_user_key`: none where
/// the key is empty.
pub open spec fn stop_before(largest_user_key: UserKeyView) -> Option<PointRangeView> {
    if largest_user_key.table_key.len() == 0 {
        None
    } else {
        Some(PointRangeView::at(largest_user_key))
    }
}

/// The boundary that opens the walk at `smallest_user_key`: one with
/// `epoch` where that is a delete epoch, none otherwise.
pub open spec fn opening_boundary(epoch: HummockEpoch, smallest_user_key: UserKeyView) -> Seq<
    DeleteEventView,
> {
    if epoch != MAX_EPOCH {
        seq![DeleteEventView { event_key: PointRangeView::at(smallest_user_key), new_epoch: epoch }]
    } else {
        Seq::empty()
    }
}

/// `body`, followed by a boundary that ends the last range at
/// `largest_user_key` where the walk `reaches` that key and `body` is not
/// empty.
pub open spec fn with_closing_boundary(
    body: Seq<DeleteEventView>,
    reaches: bool,
    largest_user_key: UserKeyView,
) -> Seq<DeleteEventView> {
    if reaches && body.len() > 0 {
        body.push(
            DeleteEventView {
                event_key: PointRangeView::at(largest_user_key),
                new_epoch: MAX_EPOCH,
            },
        )
    } else {
        body
    }
}

/// The tombstone boundaries between `smallest_user_key` and
/// `largest_user_key` as a merge that stands just after
/// `smallest_user_key` gives them: one at `smallest_user_key` where a
/// delete is in effect there, those that the merge steps over before
/// `largest_user_key`, and one that ends the last range at
/// `largest_user_key` where the merge goes on beyond it; without
/// repetitions.
pub open spec fn tombstones_between(
    v: MergeView,
    smallest_user_key: UserKeyView,
    largest_user_key: UserKeyView,
) -> Seq<DeleteEventView> {
    let stop = stop_before(largest_user_key);
    dedup_events(
        with_closing_boundary(
            opening_boundary(v.earliest_epoch(), smallest_user_key) + v.boundaries_until(stop),
            v.reaches(stop),
            largest_user_key,
        ),
    )
}

/// The boundaries of `events` without those that repeat the last one kept.
pub fn dedup_tombstones(events: Vec<MonotonicDeleteEvent>) -> (r: Vec<MonotonicDeleteEvent>)
    ensures
        events_view(r@) == dedup_events(events_view(events@)),
{
    let ghost all = events_view(events@);
    let mut kept: Vec<MonotonicDeleteEvent> = Vec::new();
    let mut i: usize = 0;
    proof {
        assert(all.take(0) =~= Seq::empty());
        assert(events_view(kept@) =~= Seq::empty());
    }
    while i < events.len()
        invariant
            i <= events.len(),
            all == events_view(events@),
            events_view(kept@) == dedup_events(all.take(i as int)),
        decreases events.len() - i,
    {
        let ghost before = events_view(kept@);
        proof {
            assert(all.take(i + 1).drop_last() =~= all.take(i as int));
            assert(all.take(i + 1).last() == events@[i as int]@);
            if kept.len() > 0 {
                assert(before.last() == kept@[kept.len() - 1]@);
            }
        }
        let repeats = kept.len() > 0 && kept[kept.len() - 1].event_key.left_user_key.table_id
            == events[i].event_key.left_user_key.table_id && kept[kept.len() - 1].new_epoch
            == events[i].new_epoch;
        if !repeats {
            kept.push(events[i].clone());
            proof {
                assert(events_view(kept@) =~= before.push(events@[i as int]@));
            }
        }
        i = i + 1;
    }
    proof {
        assert(all.take(events.len() as int) =~= all);
    }
    kept
}

/// The merge of tombstone cursors that a compaction reads.
pub struct CompactionDeleteRangeIterator {
    inner: ForwardMergeRangeIterator,
}

impl View for CompactionDeleteRangeIterator {
    type V = MergeView;

    closed spec fn view(&self) -> MergeView {
        self.inner@
    }
}

impl CompactionDeleteRangeIterator {
    /// The representation is in order.
    pub closed spec fn wf(&self) -> bool {
        self.inner.wf()
    }

    /// A well-formed merge is consistent.
    pub proof fn lemma_wf_consistent(&self)
        requires
            self.wf(),
        ensures
            self@.consistent(),
    {
        self.inner.lemma_wf_consistent();
    }

    pub fn new(inner: ForwardMergeRangeIterator) -> (r: Self)
        requires
            inner.wf(),
        ensures
            r.wf(),
            r@ == inner@,
    {
        Self { inner }
    }

    /// Steps over the next boundary.
    pub fn next(&mut self)
        requires
            old(self).wf(),
            old(self)@.valid(),
        ensures
            final(self).wf(),
            final(self)@ == old(self)@.step(),
    {
        self.inner.next()
    }

    /// The boundaries that the merge steps over before `largest_user_key`,
    /// added to `monotonic_events`, and after them one that ends the last
    /// range at `largest_user_key` where the merge goes on beyond it and
    /// there is a boundary before.
    fn collect_until(
        &mut self,
        largest_user_key: &UserKey,
        monotonic_events: &mut Vec<MonotonicDeleteEvent>,
    )
        requires
            old(self).wf(),
        ensures
            events_view(final(monotonic_events)@) == with_closing_boundary(
                events_view(old(monotonic_events)@) + old(self)@.boundaries_until(
                    stop_before(largest_user_key@),
                ),
                old(self)@.reaches(stop_before(largest_user_key@)),
                largest_user_key@,
            ),
    {
        let ghost v0 = self@;
        let ghost stop = stop_before(largest_user_key@);
        let ghost body = events_view(monotonic_events@) + v0.boundaries_until(stop);
        let bounded = !largest_user_key.is_empty();
        proof {
            self.lemma_wf_consistent();
        }
        loop
            invariant_except_break
                self.wf(),
                self@.consistent(),
                events_view(monotonic_events@) + self@.boundaries_until(stop) == body,
                self@.reaches(stop) == v0.reaches(stop),
            invariant
                bounded == (stop is Some),
                stop == stop_before(largest_user_key@),
            ensures
                events_view(monotonic_events@) == with_closing_boundary(
                    body,
                    v0.reaches(stop),
                    largest_user_key@,
                ),
            decreases self@.remaining(),
        {
            let ghost seen = events_view(monotonic_events@);
            proof {
                lemma_walk_unfold(self@, stop);
            }
            if !self.is_valid() {
                proof {
                    assert(seen + Seq::<DeleteEventView>::empty() =~= seen);
                }
                break;
            }
            if bounded && self.key().ge_point(largest_user_key, false) {
                proof {
                    assert(seen + Seq::<DeleteEventView>::empty() =~= seen);
                }
                if monotonic_events.len() > 0 {
                    monotonic_events.push(
                        MonotonicDeleteEvent {
                            event_key: PointRange::from_user_key(largest_user_key.clone(), false),
                            new_epoch: MAX_EPOCH,
                        },
                    );
                    proof {
                        assert(events_view(monotonic_events@) =~= seen.push(
                            DeleteEventView {
                                event_key: PointRangeView::at(largest_user_key@),
                                new_epoch: MAX_EPOCH,
                            },
                        ));
                    }
                }
                break;
            }
            let event_key = self.key().clone();
            let ghost at = self@;
            proof {
                lemma_step_consistent(at);
            }
            self.next();
            let new_epoch = self.earliest_epoch();
            monotonic_events.push(MonotonicDeleteEvent { new_epoch, event_key });
            proof {
                self.lemma_wf_consistent();
                let e = DeleteEventView { event_key: at.min_key(), new_epoch };
                assert(events_view(monotonic_events@) =~= seen.push(e));
                assert(seen.push(e) + at.step().boundaries_until(stop) =~= seen + (seq![e]
                    + at.step().boundaries_until(stop)));
            }
        }
    }

    /// The tombstone boundaries between `smallest_user_key` and
    /// `largest_user_key`; up to the end where `largest_user_key` is empty.
    pub fn get_tombstone_between(self, smallest_user_key: &UserKey, largest_user_key: &UserKey) -> (r:
        Vec<MonotonicDeleteEvent>)
        requires
            self.wf(),
        ensures
            self@.sources_sorted() ==> events_view(r@) == tombstones_between(
                self@.sought(PointRangeView::at(smallest_user_key@)),
                smallest_user_key@,
                largest_user_key@,
            ),
    {
        let mut iter = self;
        iter.seek(smallest_user_key);
        let mut monotonic_events: Vec<MonotonicDeleteEvent> = Vec::new();
        let first_epoch = iter.earliest_epoch();
        if !is_max_epoch(first_epoch) {
            monotonic_events.push(
                MonotonicDeleteEvent {
                    event_key: PointRange::from_user_key(smallest_user_key.clone(), false),
                    new_epoch: first_epoch,
                },
            );
        }
        proof {
            assert(events_view(monotonic_events@) =~= opening_boundary(
                iter@.earliest_epoch(),
                smallest_user_key@,
            ));
        }
        iter.collect_until(largest_user_key, &mut monotonic_events);
        dedup_tombstones(monotonic_events)
    }

    /// Steps over every boundary at or before `target_user_key`, and says
    /// which is the earliest delete at or after `epoch` that is then in
    /// effect; `MAX_EPOCH` where there is none. Target keys must come in
    /// order.
    pub fn earliest_delete_which_can_see_key_for_test(
        &mut self,
        target_user_key: &UserKey,
        epoch: HummockEpoch,
    ) -> (r: HummockEpoch)
        requires
            old(self).wf(),
        ensures
            final(self).wf(),
            final(self)@ == old(self)@.step_until(PointRangeView::at(target_user_key@)),
            r == least_at_least(final(self)@.current_epochs, epoch),
    {
        self.inner.next_until(target_user_key);
        self.earliest_delete_since(epoch)
    }

    /// The key of the next boundary.
    pub fn key(&self) -> (r: &PointRange)
        requires
            self.wf(),
            self@.valid(),
        ensures
            r@ == self@.min_key(),
    {
        self.inner.next_extended_user_key()
    }

    /// Whether a boundary lies ahead.
    pub fn is_valid(&self) -> (r: bool)
        requires
            self.wf(),
        ensures
            r == self@.valid(),
    {
        self.inner.is_valid()
    }

    /// The least delete epoch in effect; `MAX_EPOCH` where there is none.
    pub fn earliest_epoch(&self) -> (r: HummockEpoch)
        requires
            self.wf(),
        ensures
            r == self@.earliest_epoch(),
    {
        self.inner.earliest_epoch()
    }

    /// The least delete epoch in effect that is at least `epoch`;
    /// `MAX_EPOCH` where there is none.
    pub fn earliest_delete_since(&self, epoch: HummockEpoch) -> (r: HummockEpoch)
        requires
            self.wf(),
        ensures
            r == least_at_least(self@.current_epochs, epoch),
    {
        self.inner.earliest_delete_since(epoch)
    }

    /// Goes to the first boundary after `target_user_key`.
    pub fn seek(&mut self, target_user_key: &UserKey)
        requires
            old(self).wf(),
        ensures
            final(self).wf(),
            final(self)@.same_sources(old(self)@),
            final(self)@.synced(),
            old(self)@.sources_sorted() ==> final(self)@ == old(self)@.sought(
                PointRangeView::at(target_user_key@),
            ),
    {
        self.inner.seek(target_user_key)
    }

    /// Goes back to the first boundary.
    pub fn rewind(&mut self)
        requires
            old(self).wf(),
        ensures
            final(self).wf(),
            final(self)@ == old(self)@.rewound(),
    {
        self.inner.rewind()
    }
}

/// A cursor over the tombstone boundaries of one table.
pub struct SstableDeleteRangeIterator {
    table: TableHolder,
    next_idx: usize,
}

impl SstableDeleteRangeIterator {
    #[verifier::type_invariant]
    spec fn in_bounds(&self) -> bool {
        self.next_idx <= self.table.meta.monotonic_tombstone_events.len()
    }

    /// The boundaries that the cursor walks.
    pub closed spec fn events(&self) -> Seq<DeleteEventView> {
        self.table.events()
    }

    /// How many boundaries lie behind the cursor.
    pub closed spec fn position(&self) -> int {
        self.next_idx as int
    }

    /// Whether a boundary lies ahead of the cursor.
    pub open spec fn valid(&self) -> bool {
        0 <= self.position() < self.events().len()
    }

    proof fn lemma_events_len(&self)
        ensures
            self.events().len() == self.table.meta.monotonic_tombstone_events.len(),
    {
    }

    pub fn new(table: TableHolder) -> (r: Self)
        ensures
            r.events() == table.events(),
            r.position() == 0,
            r.events().len() <= usize::MAX,
    {
        Self { table, next_idx: 0 }
    }

    /// Whether the boundary ahead is the table's last.
    pub fn is_last_range(&self) -> (r: bool)
        requires
            self.valid(),
        ensures
            r == (self.position() + 1 == self.events().len()),
    {
        proof {
            self.lemma_events_len();
        }
        self.next_idx + 1 == self.table.meta.monotonic_tombstone_events.len()
    }

    /// The key of the boundary ahead.
    pub fn next_extended_user_key(&self) -> (r: &PointRange)
        requires
            self.valid(),
        ensures
            r@ == self.events()[self.position()].event_key,
    {
        &self.table.meta.monotonic_tombstone_events[self.next_idx].event_key
    }

    /// The epoch in effect before the boundary ahead.
    pub fn current_epoch(&self) -> (r: HummockEpoch)
        ensures
            0 <= self.position() <= self.events().len(),
            r == epoch_before(self.events(), self.position()),
    {
        proof {
            use_type_invariant(self);
        }
        if self.next_idx > 0 {
            self.table.meta.monotonic_tombstone_events[self.next_idx - 1].new_epoch
        } else {
            MAX_EPOCH
        }
    }

    /// Steps over the boundary ahead.
    pub fn next(&mut self)
        requires
            old(self).valid(),
        ensures
            final(self).events() == old(self).events(),
            final(self).position() == old(self).position() + 1,
    {
        proof {
            self.lemma_events_len();
        }
        self.next_idx += 1;
    }

    /// Goes back to the first boundary.
    pub fn rewind(&mut self)
        ensures
            final(self).events() == old(self).events(),
            final(self).position() == 0,
    {
        self.next_idx = 0;
    }

    /// Goes to the first boundary after `target_user_key`.
    pub fn seek(&mut self, target_user_key: &UserKey)
        ensures
            final(self).events() == old(self).events(),
            0 <= final(self).position() <= final(self).events().len(),
            events_sorted(old(self).events()) ==> final(self).position() == partition_point(
                old(self).events(),
                PointRangeView::at(target_user_key@),
            ),
    {
        self.next_idx =
        search_partition_point(&self.table.meta.monotonic_tombstone_events, target_user_key);
    }

    /// Whether a boundary lies ahead of the cursor.
    pub fn is_valid(&self) -> (r: bool)
        ensures
            r == self.valid(),
            0 <= self.position() <= self.events().len() <= usize::MAX,
    {
        proof {
            use_type_invariant(self);
            self.lemma_events_len();
        }
        self.next_idx < self.table.meta.monotonic_tombstone_events.len()
    }
}

/// The earliest delete epoch that `table` puts in effect at
/// `query_user_key`: that of the last boundary at or before the key,
/// `MAX_EPOCH` where the key comes before every boundary.
pub fn get_min_delete_range_epoch_from_sstable(table: &Sstable, query_user_key: &UserKey) -> (r:
    HummockEpoch)
    ensures
        events_sorted(table.events()) ==> r == point_delete_epoch(
            table.events(),
            PointRangeView::at(query_user_key@),
        ),
{
    let idx = search_partition_point(&table.meta.monotonic_tombstone_events, query_user_key);
    if idx == 0 {
        MAX_EPOCH
    } else {
        table.meta.monotonic_tombstone_events[idx - 1].new_epoch
    }
}

} // verus!
