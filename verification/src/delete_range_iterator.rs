//! The merge of the tombstone cursors of many tables and batches.

use vstd::prelude::*;
use crate::delete_range_aggregator::SstableDeleteRangeIterator;
use crate::epoch::{is_max_epoch, HummockEpoch, MAX_EPOCH};
use crate::epoch_set::{greatest_at_most, least_at_least, EpochSet};
use crate::key::{KeyBound, KeyBoundView, PointRange, PointRangeView, TableId, UserKey, UserKeyView};
use crate::sstable::{
    epoch_before, events_sorted, events_view, partition_point, point_delete_epoch,
    search_partition_point, DeleteEventView, MonotonicDeleteEvent,
};

verus! {

/// The point at which a range that starts at `bound` in `table_id` begins.
pub open spec fn range_start_point(table_id: TableId, bound: KeyBoundView) -> PointRangeView {
    match bound {
        KeyBoundView::Included(k) => PointRangeView {
            left_user_key: UserKeyView { table_id, table_key: k },
            is_exclude_left_key: false,
        },
        KeyBoundView::Excluded(k) => PointRangeView {
            left_user_key: UserKeyView { table_id, table_key: k },
            is_exclude_left_key: true,
        },
        KeyBoundView::Unbounded => arbitrary(),
    }
}

/// The point at which a range that ends at `bound` in `table_id` stops:
/// for an open end, the start of the next table.
pub open spec fn range_end_point(table_id: TableId, bound: KeyBoundView) -> PointRangeView {
    match bound {
        KeyBoundView::Included(k) => PointRangeView {
            left_user_key: UserKeyView { table_id, table_key: k },
            is_exclude_left_key: true,
        },
        KeyBoundView::Excluded(k) => PointRangeView {
            left_user_key: UserKeyView { table_id, table_key: k },
            is_exclude_left_key: false,
        },
        KeyBoundView::Unbounded => PointRangeView {
            left_user_key: UserKeyView {
                table_id: (table_id + 1) as TableId,
                table_key: Seq::empty(),
            },
            is_exclude_left_key: false,
        },
    }
}

/// The bounds of each range, by their views.
pub open spec fn ranges_view(ranges: Seq<(KeyBound, KeyBound)>) -> Seq<
    (KeyBoundView, KeyBoundView),
> {
    ranges.map_values(|r: (KeyBound, KeyBound)| (r.0@, r.1@))
}

/// The boundaries that deleting `ranges` of `table_id` at `epoch` makes:
/// for each range one that opens it with `epoch` and one that closes it
/// with `MAX_EPOCH`.
pub open spec fn range_events(
    epoch: HummockEpoch,
    table_id: TableId,
    ranges: Seq<(KeyBoundView, KeyBoundView)>,
) -> Seq<DeleteEventView> {
    Seq::new(
        2 * ranges.len(),
        |k: int|
            if k % 2 == 0 {
                DeleteEventView {
                    event_key: range_start_point(table_id, ranges[k / 2].0),
                    new_epoch: epoch,
                }
            } else {
                DeleteEventView {
                    event_key: range_end_point(table_id, ranges[k / 2].1),
                    new_epoch: MAX_EPOCH,
                }
            },
    )
}

/// A cursor over the tombstone boundaries of one write batch.
pub struct SharedBufferDeleteRangeIterator {
    monotonic_tombstone_events: Vec<MonotonicDeleteEvent>,
    next_idx: usize,
}

impl SharedBufferDeleteRangeIterator {
    #[verifier::type_invariant]
    spec fn in_bounds(&self) -> bool {
        self.next_idx <= self.monotonic_tombstone_events.len()
    }

    /// The boundaries that the cursor walks.
    pub closed spec fn events(&self) -> Seq<DeleteEventView> {
        events_view(self.monotonic_tombstone_events@)
    }

    /// How many boundaries lie behind the cursor.
    pub closed spec fn position(&self) -> int {
        self.next_idx as int
    }

    /// Whether a boundary lies ahead of the cursor.
    pub open spec fn valid(&self) -> bool {
        0 <= self.position() < self.events().len()
    }

    proof fn lemma_events_len(&self)
        ensures
            self.events().len() == self.monotonic_tombstone_events.len(),
    {
    }

    /// A cursor over the boundaries of `delete_ranges`, all deleted from
    /// `table_id` at `epoch`.
    pub fn new(epoch: HummockEpoch, table_id: TableId, delete_ranges: Vec<(KeyBound, KeyBound)>) -> (r:
        Self)
        requires
            forall|i: int|
                0 <= i < delete_ranges.len() ==> !((#[trigger] delete_ranges[i]).0 is Unbounded),
            table_id < u32::MAX || forall|i: int|
                0 <= i < delete_ranges.len() ==> !((#[trigger] delete_ranges[i]).1 is Unbounded),
        ensures
            r.events() == range_events(epoch, table_id, ranges_view(delete_ranges@)),
            r.position() == 0,
    {
        let mut events: Vec<MonotonicDeleteEvent> = Vec::new();
        let ghost ranges = ranges_view(delete_ranges@);
        let mut i: usize = 0;
        let mut delete_ranges = delete_ranges;
        let n = delete_ranges.len();
        let ghost given = delete_ranges@;
        while i < n
            invariant
                i <= n,
                n == delete_ranges.len(),
                n == given.len(),
                ranges == ranges_view(given),
                forall|j: int| i <= j < n ==> delete_ranges[j] == given[j],
                forall|j: int| 0 <= j < n ==> !((#[trigger] given[j]).0 is Unbounded),
                table_id < u32::MAX || forall|j: int|
                    0 <= j < n ==> !((#[trigger] given[j]).1 is Unbounded),
                events.len() == 2 * i,
                forall|k: int|
                    0 <= k < 2 * i ==> (#[trigger] events[k])@ == range_events(
                        epoch,
                        table_id,
                        ranges,
                    )[k],
            decreases n - i,
        {
            let mut taken = (KeyBound::Unbounded, KeyBound::Unbounded);
            std::mem::swap(&mut delete_ranges[i], &mut taken);
            let (left_bound, right_bound) = taken;
            assert(left_bound == given[i as int].0 && right_bound == given[i as int].1);
            assert(ranges[i as int] == (left_bound@, right_bound@));
            let start = match left_bound {
                KeyBound::Excluded(x) => PointRange::from_user_key(UserKey::new(table_id, x), true),
                KeyBound::Included(x) => PointRange::from_user_key(
                    UserKey::new(table_id, x),
                    false,
                ),
                KeyBound::Unbounded => vstd::pervasive::unreached(),
            };
            let end = match right_bound {
                KeyBound::Excluded(x) => PointRange::from_user_key(
                    UserKey::new(table_id, x),
                    false,
                ),
                KeyBound::Included(x) => PointRange::from_user_key(UserKey::new(table_id, x), true),
                KeyBound::Unbounded => PointRange::from_user_key(
                    UserKey::new(table_id + 1, Vec::new()),
                    false,
                ),
            };
            events.push(MonotonicDeleteEvent { event_key: start, new_epoch: epoch });
            events.push(MonotonicDeleteEvent { event_key: end, new_epoch: MAX_EPOCH });
            i = i + 1;
        }
        let r = Self { monotonic_tombstone_events: events, next_idx: 0 };
        proof {
            assert(r.events() =~= range_events(epoch, table_id, ranges));
        }
        r
    }

    /// The key of the boundary ahead.
    pub fn next_extended_user_key(&self) -> (r: &PointRange)
        requires
            self.valid(),
        ensures
            r@ == self.events()[self.position()].event_key,
    {
        &self.monotonic_tombstone_events[self.next_idx].event_key
    }

    /// The epoch in effect before the boundary ahead.
    pub fn current_epoch(&self) -> (r: HummockEpoch)
        ensures
            0 <= self.position() <= self.events().len(),
            r == epoch_before(self.events(), self.position()),
    {
        proof {
            use_type_invariant(self);
        }
        if self.next_idx > 0 {
            self.monotonic_tombstone_events[self.next_idx - 1].new_epoch
        } else {
            MAX_EPOCH
        }
    }

    /// Steps over the boundary ahead.
    pub fn next(&mut self)
        requires
            old(self).valid(),
        ensures
            final(self).events() == old(self).events(),
            final(self).position() == old(self).position() + 1,
    {
        proof {
            self.lemma_events_len();
        }
        self.next_idx += 1;
    }

    /// Goes back to the first boundary.
    pub fn rewind(&mut self)
        ensures
            final(self).events() == old(self).events(),
            final(self).position() == 0,
    {
        self.next_idx = 0;
    }

    /// Goes to the first boundary after `target_user_key`.
    pub fn seek(&mut self, target_user_key: &UserKey)
        ensures
            final(self).events() == old(self).events(),
            0 <= final(self).position() <= final(self).events().len(),
            events_sorted(old(self).events()) ==> final(self).position() == partition_point(
                old(self).events(),
                PointRangeView::at(target_user_key@),
            ),
    {
        self.next_idx = search_partition_point(&self.monotonic_tombstone_events, target_user_key);
    }

    /// Whether a boundary lies ahead of the cursor.
    pub fn is_valid(&self) -> (r: bool)
        ensures
            r == self.valid(),
            0 <= self.position() <= self.events().len() <= usize::MAX,
    {
        proof {
            use_type_invariant(self);
            self.lemma_events_len();
        }
        self.next_idx < self.monotonic_tombstone_events.len()
    }
}

/// What a tombstone cursor stands for: the boundaries it walks and how
/// many of them lie behind it.
pub struct CursorView {
    pub events: Seq<DeleteEventView>,
    pub position: int,
}

impl CursorView {
    /// The position is one of the cursor's.
    pub open spec fn in_bounds(self) -> bool {
        0 <= self.position <= self.events.len()
    }

    /// Whether a boundary lies ahead of the cursor.
    pub open spec fn valid(self) -> bool {
        0 <= self.position < self.events.len()
    }

    /// The key of the boundary ahead.
    pub open spec fn next_key(self) -> PointRangeView {
        self.events[self.position].event_key
    }

    /// The epoch in effect before the boundary ahead.
    pub open spec fn current_epoch(self) -> HummockEpoch {
        epoch_before(self.events, self.position)
    }

    /// The cursor one boundary further on.
    pub open spec fn step(self) -> CursorView {
        CursorView { events: self.events, position: self.position + 1 }
    }

    /// The cursor at `position`.
    pub open spec fn at(self, position: int) -> CursorView {
        CursorView { events: self.events, position }
    }
}

/// A tombstone cursor of either kind.
pub enum RangeIteratorTyped {
    Sst(SstableDeleteRangeIterator),
    Batch(SharedBufferDeleteRangeIterator),
}

impl View for RangeIteratorTyped {
    type V = CursorView;

    open spec fn view(&self) -> CursorView {
        match self {
            RangeIteratorTyped::Sst(sst) => CursorView {
                events: sst.events(),
                position: sst.position(),
            },
            RangeIteratorTyped::Batch(batch) => CursorView {
                events: batch.events(),
                position: batch.position(),
            },
        }
    }
}

impl RangeIteratorTyped {
    /// The key of the boundary ahead.
    pub fn next_extended_user_key(&self) -> (r: &PointRange)
        requires
            self@.valid(),
        ensures
            r@ == self@.next_key(),
    {
        match self {
            RangeIteratorTyped::Sst(sst) => sst.next_extended_user_key(),
            RangeIteratorTyped::Batch(batch) => batch.next_extended_user_key(),
        }
    }

    /// The epoch in effect before the boundary ahead.
    pub fn current_epoch(&self) -> (r: HummockEpoch)
        ensures
            self@.in_bounds(),
            r == self@.current_epoch(),
    {
        match self {
            RangeIteratorTyped::Sst(sst) => sst.current_epoch(),
            RangeIteratorTyped::Batch(batch) => batch.current_epoch(),
        }
    }

    /// Steps over the boundary ahead.
    pub fn next(&mut self)
        requires
            old(self)@.valid(),
        ensures
            final(self)@ == old(self)@.step(),
    {
        match self {
            RangeIteratorTyped::Sst(sst) => sst.next(),
            RangeIteratorTyped::Batch(batch) => batch.next(),
        }
    }

    /// Goes back to the first boundary.
    pub fn rewind(&mut self)
        ensures
            final(self)@ == old(self)@.at(0),
    {
        match self {
            RangeIteratorTyped::Sst(sst) => sst.rewind(),
            RangeIteratorTyped::Batch(batch) => batch.rewind(),
        }
    }

    /// Goes to the first boundary after `target_user_key`.
    pub fn seek(&mut self, target_user_key: &UserKey)
        ensures
            final(self)@.events == old(self)@.events,
            final(self)@.in_bounds(),
            events_sorted(old(self)@.events) ==> final(self)@.position == partition_point(
                old(self)@.events,
                PointRangeView::at(target_user_key@),
            ),
    {
        match self {
            RangeIteratorTyped::Sst(sst) => sst.seek(target_user_key),
            RangeIteratorTyped::Batch(batch) => batch.seek(target_user_key),
        }
    }

    /// Whether a boundary lies ahead of the cursor.
    pub fn is_valid(&self) -> (r: bool)
        ensures
            r == self@.valid(),
            self@.in_bounds(),
            self@.events.len() <= usize::MAX,
    {
        match self {
            RangeIteratorTyped::Sst(sst) => sst.is_valid(),
            RangeIteratorTyped::Batch(batch) => batch.is_valid(),
        }
    }
}


/// What a `ForwardMergeRangeIterator` stands for.
pub struct MergeView {
    /// The cursors that were added, in the order in which they came.
    pub cursors: Seq<CursorView>,
    /// For each cursor, whether it takes part in the merge.
    pub in_heap: Seq<bool>,
    /// The delete epochs in effect at the merged position.
    pub current_epochs: Set<HummockEpoch>,
    /// The epoch of the reader that the merge serves.
    pub read_epoch: HummockEpoch,
}

impl MergeView {
    /// Each cursor is within its bounds, and one that takes part in the
    /// merge has a boundary ahead.
    pub open spec fn consistent(self) -> bool {
        &&& self.in_heap.len() == self.cursors.len()
        &&& forall|i: int|
            0 <= i < self.cursors.len() ==> (#[trigger] self.cursors[i]).in_bounds()
        &&& forall|i: int|
            0 <= i < self.cursors.len() && #[trigger] self.in_heap[i] ==> self.cursors[i].valid()
    }

    /// Whether the merge has a boundary ahead.
    pub open spec fn valid(self) -> bool {
        exists|i: int| 0 <= i < self.in_heap.len() && #[trigger] self.in_heap[i]
    }

    /// `key` is the key of a boundary ahead in the merge, and no boundary
    /// ahead has a smaller one.
    pub open spec fn is_min_key(self, key: PointRangeView) -> bool {
        &&& exists|i: int|
            0 <= i < self.in_heap.len() && #[trigger] self.in_heap[i] && self.cursors[i].next_key()
                == key
        &&& forall|j: int|
            0 <= j < self.in_heap.len() && #[trigger] self.in_heap[j] ==> key.le(
                self.cursors[j].next_key(),
            )
    }

    /// The key of the merge's next boundary.
    pub open spec fn min_key(self) -> PointRangeView {
        choose|key: PointRangeView| self.is_min_key(key)
    }

    /// Whether cursor `i` stands at the merge's next boundary.
    pub open spec fn at_min(self, i: int) -> bool {
        0 <= i < self.in_heap.len() && self.in_heap[i] && self.cursors[i].next_key()
            == self.min_key()
    }

    /// The epochs that go out of effect at the merge's next boundary:
    /// those of the cursors that stand at it.
    pub open spec fn leaving_epochs(self) -> Set<HummockEpoch> {
        Set::new(
            |e: HummockEpoch|
                e != MAX_EPOCH && exists|i: int|
                    #[trigger] self.at_min(i) && self.cursors[i].current_epoch() == e,
        )
    }

    /// The epochs that come into effect at the merge's next boundary:
    /// those that the cursors standing at it have behind it, as far as
    /// they go on.
    pub open spec fn entering_epochs(self) -> Set<HummockEpoch> {
        Set::new(
            |e: HummockEpoch|
                e != MAX_EPOCH && exists|i: int|
                    #[trigger] self.at_min(i) && self.cursors[i].step().valid()
                        && self.cursors[i].step().current_epoch() == e,
        )
    }

    /// The merge one boundary further on: every cursor that stands at the
    /// next boundary steps over it, and leaves the merge if it has come to
    /// its end.
    pub open spec fn step(self) -> MergeView {
        MergeView {
            cursors: Seq::new(
                self.cursors.len(),
                |i: int|
                    if self.at_min(i) {
                        self.cursors[i].step()
                    } else {
                        self.cursors[i]
                    },
            ),
            in_heap: Seq::new(
                self.cursors.len(),
                |i: int|
                    if self.at_min(i) {
                        self.cursors[i].step().valid()
                    } else {
                        self.in_heap[i]
                    },
            ),
            current_epochs: self.current_epochs.difference(self.leaving_epochs()).union(
                self.entering_epochs(),
            ),
            read_epoch: self.read_epoch,
        }
    }

    /// The merge with every cursor back at its first boundary: no epoch is
    /// in effect, and every cursor that has a boundary takes part.
    pub open spec fn rewound(self) -> MergeView {
        MergeView {
            cursors: Seq::new(self.cursors.len(), |i: int| self.cursors[i].at(0)),
            in_heap: Seq::new(self.cursors.len(), |i: int| self.cursors[i].events.len() > 0),
            current_epochs: Set::empty(),
            read_epoch: self.read_epoch,
        }
    }

    /// `other` walks the same boundaries as `self`, cursor by cursor, for
    /// the same reader.
    pub open spec fn same_sources(self, other: MergeView) -> bool {
        &&& self.cursors.len() == other.cursors.len()
        &&& self.read_epoch == other.read_epoch
        &&& forall|i: int|
            0 <= i < self.cursors.len() ==> (#[trigger] self.cursors[i]).events
                == other.cursors[i].events
    }

    /// Every cursor walks boundaries whose keys never go down.
    pub open spec fn sources_sorted(self) -> bool {
        forall|i: int|
            0 <= i < self.cursors.len() ==> events_sorted((#[trigger] self.cursors[i]).events)
    }

    /// Every cursor stands at the first of its boundaries that lies after
    /// `target`.
    pub open spec fn positioned_after(self, target: PointRangeView) -> bool {
        forall|i: int|
            0 <= i < self.cursors.len() ==> (#[trigger] self.cursors[i]).position
                == partition_point(self.cursors[i].events, target)
    }

    /// No delete epoch occurs in the boundaries of two cursors.
    pub open spec fn epochs_apart(self) -> bool {
        forall|i: int, j: int, a: int, b: int|
            0 <= i < self.cursors.len() && 0 <= j < self.cursors.len() && i != j && 0 <= a
                < self.cursors[i].events.len() && 0 <= b < self.cursors[j].events.len()
                && #[trigger] self.cursors[i].events[a].new_epoch
                == #[trigger] self.cursors[j].events[b].new_epoch
                ==> self.cursors[i].events[a].new_epoch == MAX_EPOCH
    }

    /// The last boundary of every cursor ends a range: nothing is deleted
    /// after it.
    pub open spec fn ranges_closed(self) -> bool {
        forall|i: int|
            0 <= i < self.cursors.len() && (#[trigger] self.cursors[i]).events.len() > 0
                ==> self.cursors[i].events.last().new_epoch == MAX_EPOCH
    }

    /// The delete epochs that the cursors' boundaries put in effect at
    /// `target`, each cursor taken by itself.
    pub open spec fn point_epochs(self, target: PointRangeView) -> Set<HummockEpoch> {
        Set::new(
            |e: HummockEpoch|
                e != MAX_EPOCH && exists|i: int|
                    0 <= i < self.cursors.len() && point_delete_epoch(
                        (#[trigger] self.cursors[i]).events,
                        target,
                    ) == e,
        )
    }

    /// How many boundaries the cursors have ahead of them, all together.
    pub open spec fn remaining(self) -> nat {
        remaining_events(self.cursors)
    }

    /// The merge after it has stepped over every boundary at or before
    /// `target`.
    pub open spec fn step_until(self, target: PointRangeView) -> MergeView
        decreases self.remaining(),
        when self.consistent()
    {
        if self.valid() && self.min_key().le(target) {
            proof {
                lemma_step_consistent(self);
            }
            self.step().step_until(target)
        } else {
            self
        }
    }

    /// The merge with every cursor at its first boundary after `target`,
    /// taking part if it has one, and with the epochs of these cursors in
    /// effect.
    pub open spec fn sought(self, target: PointRangeView) -> MergeView {
        let cursors = Seq::new(
            self.cursors.len(),
            |i: int| self.cursors[i].at(partition_point(self.cursors[i].events, target)),
        );
        let moved = MergeView {
            cursors,
            in_heap: Seq::new(self.cursors.len(), |i: int| cursors[i].valid()),
            current_epochs: Set::empty(),
            read_epoch: self.read_epoch,
        };
        MergeView { current_epochs: moved.epochs_in_effect(), ..moved }
    }

    /// The boundaries that the merge steps over from its position on, up
    /// to the first at or after `stop` if there is one, each with the
    /// earliest delete epoch in effect behind it.
    #[verifier::opaque]
    pub open spec fn boundaries_until(self, stop: Option<PointRangeView>) -> Seq<DeleteEventView>
        decreases self.remaining(),
        when self.consistent()
    {
        if !self.valid() || (stop is Some && stop->0.le(self.min_key())) {
            Seq::empty()
        } else {
            proof {
                lemma_step_consistent(self);
            }
            seq![
                DeleteEventView {
                    event_key: self.min_key(),
                    new_epoch: self.step().earliest_epoch(),
                },
            ] + self.step().boundaries_until(stop)
        }
    }

    /// Whether the merge, stepping on from its position, comes to a
    /// boundary at or after `stop`.
    #[verifier::opaque]
    pub open spec fn reaches(self, stop: Option<PointRangeView>) -> bool
        decreases self.remaining(),
        when self.consistent()
    {
        if !self.valid() {
            false
        } else if stop is Some && stop->0.le(self.min_key()) {
            true
        } else {
            proof {
                lemma_step_consistent(self);
            }
            self.step().reaches(stop)
        }
    }

    /// No cursor stands after its first boundary beyond `target`.
    pub open spec fn not_beyond(self, target: PointRangeView) -> bool {
        forall|i: int|
            0 <= i < self.cursors.len() ==> (#[trigger] self.cursors[i]).position
                <= partition_point(self.cursors[i].events, target)
    }

    /// The least delete epoch in effect; `MAX_EPOCH` where there is none.
    pub open spec fn earliest_epoch(self) -> HummockEpoch {
        least_at_least(self.current_epochs, 0)
    }

    /// The epochs that the cursors with a boundary ahead have in effect.
    pub open spec fn epochs_in_effect(self) -> Set<HummockEpoch> {
        Set::new(
            |e: HummockEpoch|
                e != MAX_EPOCH && exists|i: int|
                    0 <= i < self.cursors.len() && (#[trigger] self.cursors[i]).valid()
                        && self.cursors[i].current_epoch() == e,
        )
    }

    /// Every cursor with a boundary ahead takes part in the merge, and
    /// the epochs in effect are those of these cursors.
    pub open spec fn synced(self) -> bool {
        &&& self.consistent()
        &&& forall|i: int|
            0 <= i < self.cursors.len() ==> #[trigger] self.in_heap[i] == self.cursors[i].valid()
        &&& self.current_epochs == self.epochs_in_effect()
    }
}

/// How many boundaries `cursors` have ahead of them, all together.
pub open spec fn remaining_events(cursors: Seq<CursorView>) -> nat
    decreases cursors.len(),
{
    if cursors.len() == 0 {
        0
    } else {
        let last = cursors.last();
        let ahead = if last.in_bounds() {
            (last.events.len() - last.position) as nat
        } else {
            0
        };
        remaining_events(cursors.drop_last()) + ahead
    }
}

/// Where no cursor goes back, fewer boundaries lie ahead if one cursor
/// went on, and no more in any case.
pub proof fn lemma_remaining_decreases(a: Seq<CursorView>, b: Seq<CursorView>)
    requires
        a.len() == b.len(),
        forall|i: int|
            0 <= i < a.len() ==> (#[trigger] a[i]).in_bounds() && b[i].in_bounds() && a[i].events
                == b[i].events && a[i].position <= b[i].position,
    ensures
        remaining_events(b) <= remaining_events(a),
        (exists|k: int| 0 <= k < a.len() && (#[trigger] a[k]).position < b[k].position)
            ==> remaining_events(b) < remaining_events(a),
    decreases a.len(),
{
    if a.len() > 0 {
        let a0 = a.drop_last();
        let b0 = b.drop_last();
        assert forall|i: int| 0 <= i < a0.len() implies (#[trigger] a0[i]).in_bounds()
            && b0[i].in_bounds() && a0[i].events == b0[i].events && a0[i].position
            <= b0[i].position by {
            assert(a0[i] == a[i]);
            assert(b0[i] == b[i]);
        }
        lemma_remaining_decreases(a0, b0);
        let n = a.len() - 1;
        assert(a.last() == a[n]);
        assert(b.last() == b[n]);
        if exists|k: int| 0 <= k < a.len() && (#[trigger] a[k]).position < b[k].position {
            let k = choose|k: int| 0 <= k < a.len() && (#[trigger] a[k]).position < b[k].position;
            if k < n {
                assert(a0[k] == a[k]);
                assert(b0[k] == b[k]);
            }
        }
    }
}

/// A merge has at most one least key.
pub proof fn lemma_min_key_unique(v: MergeView, a: PointRangeView, b: PointRangeView)
    requires
        v.is_min_key(a),
        v.is_min_key(b),
    ensures
        a == b,
{
    let i = choose|i: int|
        0 <= i < v.in_heap.len() && #[trigger] v.in_heap[i] && v.cursors[i].next_key() == a;
    let j = choose|j: int|
        0 <= j < v.in_heap.len() && #[trigger] v.in_heap[j] && v.cursors[j].next_key() == b;
    assert(a.le(v.cursors[j].next_key()));
    assert(b.le(v.cursors[i].next_key()));
    crate::key::lemma_point_le_antisym(a, b);
}

/// Whatever is a least key of a merge is its `min_key`.
pub proof fn lemma_min_key_is(v: MergeView, key: PointRangeView)
    requires
        v.is_min_key(key),
    ensures
        v.min_key() == key,
{
    lemma_min_key_unique(v, key, v.min_key());
}

/// The cursors of a vector, each by its view.
pub open spec fn cursors_view(iters: Seq<RangeIteratorTyped>) -> Seq<CursorView> {
    iters.map_values(|c: RangeIteratorTyped| c@)
}

/// Merges the tombstone cursors of many tables and batches into one walk
/// over their boundaries in key order, and keeps the set of delete epochs
/// in effect at its position.
pub struct ForwardMergeRangeIterator {
    /// Every cursor that was added.
    iters: Vec<RangeIteratorTyped>,
    /// For each cursor, whether it takes part in the merge.
    in_heap: Vec<bool>,
    read_epoch: HummockEpoch,
    current_epochs: EpochSet,
}

impl View for ForwardMergeRangeIterator {
    type V = MergeView;

    closed spec fn view(&self) -> MergeView {
        MergeView {
            cursors: cursors_view(self.iters@),
            in_heap: self.in_heap@,
            current_epochs: self.current_epochs@,
            read_epoch: self.read_epoch,
        }
    }
}

impl Default for ForwardMergeRangeIterator {
    fn default() -> (r: Self)
        ensures
            r.wf(),
            r@ == (MergeView {
                cursors: Seq::empty(),
                in_heap: Seq::empty(),
                current_epochs: Set::empty(),
                read_epoch: MAX_EPOCH,
            }),
    {
        ForwardMergeRangeIterator::new(MAX_EPOCH)
    }
}

impl ForwardMergeRangeIterator {
    /// The representation is in order.
    pub closed spec fn wf(&self) -> bool {
        &&& self.current_epochs.wf()
        &&& self@.consistent()
    }

    /// A well-formed merge is consistent.
    pub proof fn lemma_wf_consistent(&self)
        requires
            self.wf(),
        ensures
            self@.consistent(),
    {
    }

    /// A merge of no cursors for a reader at `read_epoch`.
    pub fn new(read_epoch: HummockEpoch) -> (r: Self)
        ensures
            r.wf(),
            r@ == (MergeView {
                cursors: Seq::empty(),
                in_heap: Seq::empty(),
                current_epochs: Set::empty(),
                read_epoch,
            }),
    {
        let r = ForwardMergeRangeIterator {
            iters: Vec::new(),
            in_heap: Vec::new(),
            read_epoch,
            current_epochs: EpochSet::new(),
        };
        proof {
            assert(r@.cursors =~= Seq::empty());
            assert(r@.in_heap =~= Seq::empty());
        }
        r
    }

    fn add_iter(&mut self, iter: RangeIteratorTyped)
        requires
            old(self).wf(),
        ensures
            final(self).wf(),
            final(self)@ == (MergeView {
                cursors: old(self)@.cursors.push(iter@),
                in_heap: old(self)@.in_heap.push(false),
                ..old(self)@
            }),
    {
        let _ = iter.is_valid();
        self.iters.push(iter);
        self.in_heap.push(false);
        proof {
            assert(self@.cursors =~= old(self)@.cursors.push(iter@));
        }
    }

    /// Adds the cursor of a write batch. It takes part in the merge from
    /// the next `rewind` or `seek` on.
    pub fn add_batch_iter(&mut self, iter: SharedBufferDeleteRangeIterator)
        requires
            old(self).wf(),
        ensures
            final(self).wf(),
            final(self)@ == (MergeView {
                cursors: old(self)@.cursors.push(
                    CursorView { events: iter.events(), position: iter.position() },
                ),
                in_heap: old(self)@.in_heap.push(false),
                ..old(self)@
            }),
    {
        self.add_iter(RangeIteratorTyped::Batch(iter));
    }

    /// Adds the cursor of a table. It takes part in the merge from the
    /// next `rewind` or `seek` on.
    pub fn add_sst_iter(&mut self, iter: SstableDeleteRangeIterator)
        requires
            old(self).wf(),
        ensures
            final(self).wf(),
            final(self)@ == (MergeView {
                cursors: old(self)@.cursors.push(
                    CursorView { events: iter.events(), position: iter.position() },
                ),
                in_heap: old(self)@.in_heap.push(false),
                ..old(self)@
            }),
    {
        self.add_iter(RangeIteratorTyped::Sst(iter));
    }

    /// Whether the merge has a boundary ahead.
    pub fn is_valid(&self) -> (r: bool)
        requires
            self.wf(),
        ensures
            r == self@.valid(),
    {
        let mut i: usize = 0;
        while i < self.in_heap.len()
            invariant
                i <= self.in_heap.len(),
                forall|j: int| 0 <= j < i ==> !self.in_heap[j],
            decreases self.in_heap.len() - i,
        {
            if self.in_heap[i] {
                assert(self@.in_heap[i as int]);
                return true;
            }
            i = i + 1;
        }
        false
    }

    /// The index of a cursor that stands at the merge's next boundary.
    fn min_index(&self) -> (m: usize)
        requires
            self.wf(),
            self@.valid(),
        ensures
            m < self@.cursors.len(),
            self@.in_heap[m as int],
            self@.is_min_key(self@.cursors[m as int].next_key()),
    {
        let n = self.iters.len();
        let mut best: usize = 0;
        let mut found = false;
        let mut i: usize = 0;
        while i < n
            invariant
                i <= n,
                n == self.iters.len(),
                self.wf(),
                found ==> best < i && self@.in_heap[best as int] && forall|j: int|
                    0 <= j < i && #[trigger] self@.in_heap[j] ==> self@.cursors[best as int].next_key().le(
                        self@.cursors[j].next_key(),
                    ),
                !found ==> forall|j: int| 0 <= j < i ==> !#[trigger] self@.in_heap[j],
            decreases n - i,
        {
            if self.in_heap[i] {
                proof {
                    assert(self@.cursors[i as int] == self.iters@[i as int]@);
                    assert(self@.cursors[i as int].valid());
                }
                if !found {
                    best = i;
                    found = true;
                } else {
                    proof {
                        assert(self@.cursors[best as int] == self.iters@[best as int]@);
                        assert(self@.cursors[best as int].valid());
                    }
                    let keep = self.iters[best].next_extended_user_key().le(
                        self.iters[i].next_extended_user_key(),
                    );
                    if !keep {
                        proof {
                            let kb = self@.cursors[best as int].next_key();
                            let ki = self@.cursors[i as int].next_key();
                            crate::key::lemma_point_le_total(kb, ki);
                            assert forall|j: int|
                                0 <= j < i + 1 && #[trigger] self@.in_heap[j] implies ki.le(
                                self@.cursors[j].next_key(),
                            ) by {
                                if j < i {
                                    crate::key::lemma_point_le_trans(
                                        ki,
                                        kb,
                                        self@.cursors[j].next_key(),
                                    );
                                }
                            }
                        }
                        best = i;
                    }
                }
            }
            i = i + 1;
        }
        best
    }

    /// The key of the merge's next boundary.
    pub fn next_extended_user_key(&self) -> (r: &PointRange)
        requires
            self.wf(),
            self@.valid(),
        ensures
            r@ == self@.min_key(),
    {
        let m = self.min_index();
        proof {
            lemma_min_key_is(self@, self@.cursors[m as int].next_key());
            assert(self@.cursors[m as int] == self.iters@[m as int]@);
        }
        self.iters[m].next_extended_user_key()
    }

    /// The greatest delete epoch in effect that the reader can see; 0
    /// where there is none.
    pub fn current_epoch(&self) -> (r: HummockEpoch)
        requires
            self.wf(),
        ensures
            r == greatest_at_most(self@.current_epochs, self@.read_epoch),
    {
        self.current_epochs.last_at_most(self.read_epoch)
    }

    /// The least delete epoch in effect; `MAX_EPOCH` where there is none.
    pub fn earliest_epoch(&self) -> (r: HummockEpoch)
        requires
            self.wf(),
        ensures
            r == least_at_least(self@.current_epochs, 0),
    {
        self.current_epochs.first_at_least(0)
    }

    /// The least delete epoch in effect that is at least `epoch`;
    /// `MAX_EPOCH` where there is none.
    pub fn earliest_delete_since(&self, epoch: HummockEpoch) -> (r: HummockEpoch)
        requires
            self.wf(),
        ensures
            r == least_at_least(self@.current_epochs, epoch),
    {
        self.current_epochs.first_at_least(epoch)
    }
}

impl ForwardMergeRangeIterator {
    /// For each cursor, whether it stands at the merge's next boundary.
    fn cursors_at_min(&self) -> (flags: Vec<bool>)
        requires
            self.wf(),
            self@.valid(),
        ensures
            flags.len() == self@.cursors.len(),
            forall|i: int| 0 <= i < flags.len() ==> flags[i] == self@.at_min(i),
    {
        let n = self.iters.len();
        let m = self.min_index();
        proof {
            lemma_min_key_is(self@, self@.cursors[m as int].next_key());
            assert(self@.cursors[m as int] == self.iters@[m as int]@);
        }
        let mut flags: Vec<bool> = Vec::new();
        let mut i: usize = 0;
        while i < n
            invariant
                i <= n,
                n == self.iters.len(),
                m < n,
                self.wf(),
                self@.in_heap[m as int],
                self@.min_key() == self@.cursors[m as int].next_key(),
                flags.len() == i,
                forall|j: int| 0 <= j < i ==> flags[j] == self@.at_min(j),
            decreases n - i,
        {
            let mut at = false;
            if self.in_heap[i] {
                proof {
                    assert(self@.cursors[i as int] == self.iters@[i as int]@);
                    assert(self@.cursors[m as int] == self.iters@[m as int]@);
                    assert(self@.cursors[i as int].valid());
                    assert(self@.cursors[m as int].valid());
                }
                at = self.iters[i].next_extended_user_key().same(
                    self.iters[m].next_extended_user_key(),
                );
            }
            flags.push(at);
            i = i + 1;
        }
        flags
    }

    /// Steps over the merge's next boundary: every cursor that stands at it
    /// steps over it, the epochs that these cursors had in effect go out of
    /// effect, and those that they have in effect behind it come in.
    pub fn next(&mut self)
        requires
            old(self).wf(),
            old(self)@.valid(),
        ensures
            final(self).wf(),
            final(self)@ == old(self)@.step(),
    {
        let n = self.iters.len();
        let advance = self.cursors_at_min();
        let ghost before = self@;
        let mut i: usize = 0;
        while i < n
            invariant
                i <= n,
                n == self.iters.len(),
                advance.len() == n,
                self.wf(),
                self@.cursors == before.cursors,
                self@.in_heap == before.in_heap,
                self@.read_epoch == before.read_epoch,
                before.consistent(),
                forall|j: int| 0 <= j < n ==> advance[j] == before.at_min(j),
                self@.current_epochs == before.current_epochs.difference(
                    Set::new(
                        |e: HummockEpoch|
                            e != MAX_EPOCH && exists|j: int|
                                0 <= j < i && #[trigger] before.at_min(j)
                                    && before.cursors[j].current_epoch() == e,
                    ),
                ),
            decreases n - i,
        {
            let ghost gone = Set::new(
                |e: HummockEpoch|
                    e != MAX_EPOCH && exists|j: int|
                        0 <= j < i && #[trigger] before.at_min(j)
                            && before.cursors[j].current_epoch() == e,
            );
            let ghost gone_next = Set::new(
                |e: HummockEpoch|
                    e != MAX_EPOCH && exists|j: int|
                        0 <= j < i + 1 && #[trigger] before.at_min(j)
                            && before.cursors[j].current_epoch() == e,
            );
            if advance[i] {
                let epoch = self.iters[i].current_epoch();
                proof {
                    assert(self@.cursors[i as int] == self.iters@[i as int]@);
                    assert(before.at_min(i as int));
                }
                if !is_max_epoch(epoch) {
                    self.current_epochs.remove(epoch);
                    proof {
                        assert(gone_next =~= gone.insert(epoch));
                        assert(before.current_epochs.difference(gone_next)
                            =~= before.current_epochs.difference(gone).remove(epoch));
                    }
                } else {
                    proof {
                        assert(gone_next =~= gone);
                    }
                }
            } else {
                proof {
                    assert(!before.at_min(i as int));
                    assert(gone_next =~= gone);
                }
            }
            i = i + 1;
        }
        proof {
            assert(Set::new(
                |e: HummockEpoch|
                    e != MAX_EPOCH && exists|j: int|
                        0 <= j < n && #[trigger] before.at_min(j)
                            && before.cursors[j].current_epoch() == e,
            ) =~= before.leaving_epochs());
        }
        let ghost after = before.step();
        i = 0;
        while i < n
            invariant
                i <= n,
                n == self.iters.len(),
                n == self.in_heap.len(),
                n == before.cursors.len(),
                advance.len() == n,
                self.current_epochs.wf(),
                before.consistent(),
                after == before.step(),
                self@.read_epoch == before.read_epoch,
                forall|j: int| 0 <= j < n ==> advance[j] == before.at_min(j),
                forall|j: int| 0 <= j < i ==> (#[trigger] self.iters@[j])@ == after.cursors[j],
                forall|j: int| 0 <= j < i ==> #[trigger] self.in_heap@[j] == after.in_heap[j],
                forall|j: int| i <= j < n ==> (#[trigger] self.iters@[j])@ == before.cursors[j],
                forall|j: int| i <= j < n ==> #[trigger] self.in_heap@[j] == before.in_heap[j],
                self@.current_epochs == before.current_epochs.difference(
                    before.leaving_epochs(),
                ).union(
                    Set::new(
                        |e: HummockEpoch|
                            e != MAX_EPOCH && exists|j: int|
                                0 <= j < i && #[trigger] before.at_min(j)
                                    && before.cursors[j].step().valid()
                                    && before.cursors[j].step().current_epoch() == e,
                    ),
                ),
            decreases n - i,
        {
            let ghost come = Set::new(
                |e: HummockEpoch|
                    e != MAX_EPOCH && exists|j: int|
                        0 <= j < i && #[trigger] before.at_min(j)
                            && before.cursors[j].step().valid()
                            && before.cursors[j].step().current_epoch() == e,
            );
            let ghost come_next = Set::new(
                |e: HummockEpoch|
                    e != MAX_EPOCH && exists|j: int|
                        0 <= j < i + 1 && #[trigger] before.at_min(j)
                            && before.cursors[j].step().valid()
                            && before.cursors[j].step().current_epoch() == e,
            );
            let ghost base = before.current_epochs.difference(before.leaving_epochs());
            if advance[i] {
                proof {
                    assert(before.at_min(i as int));
                    assert(before.in_heap[i as int]);
                    assert(before.cursors[i as int].valid());
                }
                self.iters[i].next();
                if self.iters[i].is_valid() {
                    let epoch = self.iters[i].current_epoch();
                    if !is_max_epoch(epoch) {
                        self.current_epochs.insert(epoch);
                        proof {
                            assert(come_next =~= come.insert(epoch));
                            assert(base.union(come_next) =~= base.union(come).insert(epoch));
                        }
                    } else {
                        proof {
                            assert(come_next =~= come);
                        }
                    }
                } else {
                    self.in_heap.set(i, false);
                    proof {
                        assert(come_next =~= come);
                    }
                }
            } else {
                proof {
                    assert(!before.at_min(i as int));
                    assert(come_next =~= come);
                }
            }
            i = i + 1;
        }
        proof {
            assert(Set::new(
                |e: HummockEpoch|
                    e != MAX_EPOCH && exists|j: int|
                        0 <= j < n && #[trigger] before.at_min(j)
                            && before.cursors[j].step().valid()
                            && before.cursors[j].step().current_epoch() == e,
            ) =~= before.entering_epochs());
            assert(self@.cursors =~= after.cursors);
            assert(self@.in_heap =~= after.in_heap);
        }
    }
}

impl ForwardMergeRangeIterator {
    /// Takes every cursor back to its first boundary and into the merge.
    pub fn rewind(&mut self)
        requires
            old(self).wf(),
        ensures
            final(self).wf(),
            final(self)@ == old(self)@.rewound(),
    {
        let n = self.iters.len();
        let ghost before = self@;
        self.current_epochs.clear();
        let mut i: usize = 0;
        while i < n
            invariant
                i <= n,
                n == self.iters.len(),
                n == self.in_heap.len(),
                n == before.cursors.len(),
                self.current_epochs.wf(),
                self@.current_epochs == Set::<HummockEpoch>::empty(),
                self@.read_epoch == before.read_epoch,
                forall|j: int|
                    0 <= j < i ==> (#[trigger] self.iters@[j])@ == before.cursors[j].at(0),
                forall|j: int|
                    0 <= j < i ==> #[trigger] self.in_heap@[j] == (before.cursors[j].events.len()
                        > 0),
                forall|j: int| i <= j < n ==> (#[trigger] self.iters@[j])@ == before.cursors[j],
            decreases n - i,
        {
            self.iters[i].rewind();
            let valid = self.iters[i].is_valid();
            self.in_heap.set(i, valid);
            i = i + 1;
        }
        proof {
            assert(self@.cursors =~= before.rewound().cursors);
            assert(self@.in_heap =~= before.rewound().in_heap);
        }
    }

    /// Takes every cursor to its first boundary after `target_user_key`,
    /// and into the merge if it has one.
    pub fn seek(&mut self, target_user_key: &UserKey)
        requires
            old(self).wf(),
        ensures
            final(self).wf(),
            final(self)@.same_sources(old(self)@),
            final(self)@.synced(),
            old(self)@.sources_sorted() ==> final(self)@ == old(self)@.sought(
                PointRangeView::at(target_user_key@),
            ),
    {
        let n = self.iters.len();
        let ghost before = self@;
        let ghost target = PointRangeView::at(target_user_key@);
        self.current_epochs.clear();
        let mut i: usize = 0;
        while i < n
            invariant
                i <= n,
                n == self.iters.len(),
                n == self.in_heap.len(),
                n == before.cursors.len(),
                target == PointRangeView::at(target_user_key@),
                self.current_epochs.wf(),
                self@.read_epoch == before.read_epoch,
                forall|j: int|
                    0 <= j < n ==> (#[trigger] self.iters@[j])@.events == before.cursors[j].events,
                forall|j: int| 0 <= j < i ==> (#[trigger] self.iters@[j])@.in_bounds(),
                forall|j: int|
                    0 <= j < i ==> #[trigger] self.in_heap@[j] == self.iters@[j]@.valid(),
                forall|j: int|
                    0 <= j < i && events_sorted(before.cursors[j].events) ==> (
                    #[trigger] self.iters@[j])@.position == partition_point(
                        before.cursors[j].events,
                        target,
                    ),
                self@.current_epochs == Set::new(
                    |e: HummockEpoch|
                        e != MAX_EPOCH && exists|j: int|
                            0 <= j < i && (#[trigger] self.iters@[j])@.valid()
                                && self.iters@[j]@.current_epoch() == e,
                ),
            decreases n - i,
        {
            let ghost seen = Set::new(
                |e: HummockEpoch|
                    e != MAX_EPOCH && exists|j: int|
                        0 <= j < i && (#[trigger] self.iters@[j])@.valid()
                            && self.iters@[j]@.current_epoch() == e,
            );
            let ghost iters_before = self.iters@;
            self.iters[i].seek(target_user_key);
            let valid = self.iters[i].is_valid();
            self.in_heap.set(i, valid);
            proof {
                assert(forall|j: int| 0 <= j < i ==> self.iters@[j] == iters_before[j]);
                assert(seen =~= Set::new(
                    |e: HummockEpoch|
                        e != MAX_EPOCH && exists|j: int|
                            0 <= j < i && (#[trigger] self.iters@[j])@.valid()
                                && self.iters@[j]@.current_epoch() == e,
                ));
            }
            let ghost seen_next = Set::new(
                |e: HummockEpoch|
                    e != MAX_EPOCH && exists|j: int|
                        0 <= j < i + 1 && (#[trigger] self.iters@[j])@.valid()
                            && self.iters@[j]@.current_epoch() == e,
            );
            if valid {
                let epoch = self.iters[i].current_epoch();
                if !is_max_epoch(epoch) {
                    self.current_epochs.insert(epoch);
                    proof {
                        assert(self.iters@[i as int]@.valid());
                        assert(seen_next =~= seen.insert(epoch));
                    }
                } else {
                    proof {
                        assert(seen_next =~= seen);
                    }
                }
            } else {
                proof {
                    assert(seen_next =~= seen);
                }
            }
            i = i + 1;
        }
        proof {
            assert forall|e: HummockEpoch|
                self@.current_epochs.contains(e) == self@.epochs_in_effect().contains(e) by {
                if self@.current_epochs.contains(e) {
                    let j = choose|j: int|
                        0 <= j < n && (#[trigger] self.iters@[j])@.valid()
                            && self.iters@[j]@.current_epoch() == e;
                    assert(self@.cursors[j] == self.iters@[j]@);
                }
                if self@.epochs_in_effect().contains(e) {
                    let j = choose|j: int|
                        0 <= j < self@.cursors.len() && (#[trigger] self@.cursors[j]).valid()
                            && self@.cursors[j].current_epoch() == e;
                    assert(self@.cursors[j] == self.iters@[j]@);
                }
            }
            assert(self@.current_epochs =~= self@.epochs_in_effect());
            assert(self@.cursors.len() == n);
            assert forall|j: int| 0 <= j < n implies (#[trigger] self@.cursors[j]).events
                == before.cursors[j].events by {
                assert(self@.cursors[j] == self.iters@[j]@);
            }
            assert forall|j: int| 0 <= j < n implies (#[trigger] self@.cursors[j]).in_bounds() by {
                assert(self@.cursors[j] == self.iters@[j]@);
            }
            assert forall|j: int| 0 <= j < n implies #[trigger] self@.in_heap[j]
                == self@.cursors[j].valid() by {
                assert(self@.cursors[j] == self.iters@[j]@);
                assert(self.in_heap@[j] == self.iters@[j]@.valid());
            }
            if before.sources_sorted() {
                let goal = before.sought(target);
                assert forall|j: int| 0 <= j < n implies #[trigger] self@.cursors[j]
                    == goal.cursors[j] by {
                    assert(self@.cursors[j] == self.iters@[j]@);
                    assert(events_sorted(before.cursors[j].events));
                }
                assert(self@.cursors =~= goal.cursors);
                assert(self@.in_heap =~= goal.in_heap);
                assert(self@.epochs_in_effect() =~= goal.current_epochs);
            }
        }
    }
}

/// A step takes a consistent merge to a consistent one over the same
/// boundaries, with fewer of them ahead, and no cursor goes back.
pub proof fn lemma_step_consistent(v: MergeView)
    requires
        v.consistent(),
        v.valid(),
    ensures
        v.step().consistent(),
        v.step().same_sources(v),
        v.step().remaining() < v.remaining(),
        forall|i: int|
            0 <= i < v.cursors.len() ==> (#[trigger] v.cursors[i]).position
                <= v.step().cursors[i].position,
{
    let w = v.step();
    lemma_merge_has_min_key(v);
    let k = choose|i: int|
        0 <= i < v.in_heap.len() && #[trigger] v.in_heap[i] && v.cursors[i].next_key()
            == v.min_key();
    assert(v.at_min(k));
    assert(v.cursors[k].valid());
    assert forall|i: int| 0 <= i < v.cursors.len() implies (#[trigger] v.cursors[i]).in_bounds()
        && w.cursors[i].in_bounds() && v.cursors[i].events == w.cursors[i].events
        && v.cursors[i].position <= w.cursors[i].position by {
        if v.at_min(i) {
            assert(v.in_heap[i]);
            assert(v.cursors[i].valid());
        }
    }
    assert(v.cursors[k].position < w.cursors[k].position);
    lemma_remaining_decreases(v.cursors, w.cursors);
    assert forall|i: int| 0 <= i < w.cursors.len() && #[trigger] w.in_heap[i] implies w.cursors[i].valid() by {
        if !v.at_min(i) {
            assert(v.in_heap[i]);
        }
    }
}

/// A merge with a boundary ahead has a least key.
pub proof fn lemma_merge_has_min_key(v: MergeView)
    requires
        v.consistent(),
        v.valid(),
    ensures
        v.is_min_key(v.min_key()),
{
    lemma_least_key_below(v, v.in_heap.len() as int);
    let k = choose|k: PointRangeView| least_key_below(v, v.in_heap.len() as int, k);
    assert(v.is_min_key(k));
}

/// `key` is the key ahead of one of the first `n` cursors that take part
/// in the merge, and none of them has a smaller one ahead.
pub open spec fn least_key_below(v: MergeView, n: int, key: PointRangeView) -> bool {
    &&& exists|i: int| 0 <= i < n && #[trigger] v.in_heap[i] && v.cursors[i].next_key() == key
    &&& forall|j: int| 0 <= j < n && #[trigger] v.in_heap[j] ==> key.le(v.cursors[j].next_key())
}

/// Among the first `n` cursors, if one takes part in the merge, one has
/// the least key ahead.
pub proof fn lemma_least_key_below(v: MergeView, n: int)
    requires
        0 <= n <= v.in_heap.len(),
        exists|i: int| 0 <= i < n && #[trigger] v.in_heap[i],
    ensures
        exists|k: PointRangeView| least_key_below(v, n, k),
    decreases n,
{
    let last = n - 1;
    if exists|i: int| 0 <= i < last && #[trigger] v.in_heap[i] {
        lemma_least_key_below(v, last);
        let k0 = choose|k: PointRangeView| least_key_below(v, last, k);
        if v.in_heap[last] {
            let kl = v.cursors[last].next_key();
            crate::key::lemma_point_le_total(k0, kl);
            if k0.le(kl) {
                assert(least_key_below(v, n, k0));
            } else {
                assert forall|j: int| 0 <= j < n && #[trigger] v.in_heap[j] implies kl.le(
                    v.cursors[j].next_key(),
                ) by {
                    if j < last {
                        crate::key::lemma_point_le_trans(kl, k0, v.cursors[j].next_key());
                    }
                }
                assert(least_key_below(v, n, kl));
            }
        } else {
            assert(least_key_below(v, n, k0));
        }
    } else {
        assert(v.in_heap[last]);
        let kl = v.cursors[last].next_key();
        assert(least_key_below(v, n, kl));
    }
}

/// Where no delete epoch occurs in two cursors, a step keeps the epochs
/// in effect in step with the cursors.
pub proof fn lemma_step_synced(v: MergeView)
    requires
        v.synced(),
        v.valid(),
        v.epochs_apart(),
    ensures
        v.step().synced(),
{
    let w = v.step();
    lemma_step_consistent(v);
    assert forall|i: int| 0 <= i < w.cursors.len() implies #[trigger] w.in_heap[i]
        == w.cursors[i].valid() by {
        if !v.at_min(i) {
            assert(v.in_heap[i] == v.cursors[i].valid());
        }
    }
    assert forall|e: HummockEpoch| w.current_epochs.contains(e) == w.epochs_in_effect().contains(
        e,
    ) by {
        if w.current_epochs.contains(e) {
            if v.entering_epochs().contains(e) {
                let i = choose|i: int|
                    #[trigger] v.at_min(i) && v.cursors[i].step().valid()
                        && v.cursors[i].step().current_epoch() == e;
                assert(w.cursors[i].valid());
            } else {
                assert(v.epochs_in_effect().contains(e));
                let i = choose|i: int|
                    0 <= i < v.cursors.len() && (#[trigger] v.cursors[i]).valid()
                        && v.cursors[i].current_epoch() == e;
                assert(v.in_heap[i] == v.cursors[i].valid());
                if v.at_min(i) {
                    assert(v.leaving_epochs().contains(e));
                }
                assert(w.cursors[i].valid());
            }
        }
        if w.epochs_in_effect().contains(e) {
            let i = choose|i: int|
                0 <= i < w.cursors.len() && (#[trigger] w.cursors[i]).valid()
                    && w.cursors[i].current_epoch() == e;
            if v.at_min(i) {
                assert(v.entering_epochs().contains(e));
            } else {
                assert(v.cursors[i].valid());
                assert(v.epochs_in_effect().contains(e));
                if v.leaving_epochs().contains(e) {
                    let j = choose|j: int|
                        #[trigger] v.at_min(j) && v.cursors[j].current_epoch() == e;
                    assert(v.in_heap[j]);
                    assert(v.cursors[j].valid());
                    assert(v.cursors[j].in_bounds());
                    assert(v.cursors[i].in_bounds());
                    let a = v.cursors[i].position - 1;
                    let b = v.cursors[j].position - 1;
                    assert(v.cursors[i].events[a].new_epoch == v.cursors[j].events[b].new_epoch);
                }
            }
        }
    }
    assert(w.current_epochs =~= w.epochs_in_effect());
}

/// Where every cursor stands at its first boundary after `target`, and
/// the last boundary of each ends a range, the epochs in effect are those
/// that the cursors' boundaries put in effect at `target`.
pub proof fn lemma_synced_epochs_are_point_epochs(v: MergeView, target: PointRangeView)
    requires
        v.synced(),
        v.positioned_after(target),
        v.ranges_closed(),
    ensures
        v.current_epochs == v.point_epochs(target),
{
    assert forall|e: HummockEpoch| v.current_epochs.contains(e) == v.point_epochs(target).contains(
        e,
    ) by {
        if v.current_epochs.contains(e) {
            let i = choose|i: int|
                0 <= i < v.cursors.len() && (#[trigger] v.cursors[i]).valid()
                    && v.cursors[i].current_epoch() == e;
            assert(point_delete_epoch(v.cursors[i].events, target) == e);
        }
        if v.point_epochs(target).contains(e) {
            let i = choose|i: int|
                0 <= i < v.cursors.len() && point_delete_epoch(
                    (#[trigger] v.cursors[i]).events,
                    target,
                ) == e;
            assert(v.cursors[i].in_bounds());
            assert(v.cursors[i].current_epoch() == e);
            if !v.cursors[i].valid() {
                assert(v.cursors[i].position == v.cursors[i].events.len());
                assert(v.cursors[i].events.len() > 0);
                assert(v.cursors[i].events.last().new_epoch == MAX_EPOCH);
            }
        }
    }
    assert(v.current_epochs =~= v.point_epochs(target));
}

/// Stepping over every boundary at or before `target` leaves a consistent
/// merge over the same boundaries whose next boundary, if any, lies after
/// `target`. Where the merge was in step with its cursors and no delete
/// epoch occurs in two of them, it still is; where moreover the cursors'
/// boundaries are sorted and none stood beyond `target`, each now stands
/// at its first boundary after `target`.
pub proof fn lemma_step_until(v: MergeView, target: PointRangeView)
    requires
        v.consistent(),
    ensures
        v.step_until(target).consistent(),
        v.step_until(target).same_sources(v),
        !(v.step_until(target).valid() && v.step_until(target).min_key().le(target)),
        v.synced() && v.epochs_apart() ==> v.step_until(target).synced(),
        v.synced() && v.epochs_apart() && v.sources_sorted() && v.not_beyond(target)
            ==> v.step_until(target).positioned_after(target),
    decreases v.remaining(),
{
    if v.valid() && v.min_key().le(target) {
        let w = v.step();
        lemma_step_consistent(v);
        lemma_step_until(w, target);
        let z = w.step_until(target);
        assert(z == v.step_until(target));
        assert forall|i: int| 0 <= i < z.cursors.len() implies (#[trigger] z.cursors[i]).events
            == v.cursors[i].events by {
            assert(w.cursors[i].events == v.cursors[i].events);
        }
        if v.synced() && v.epochs_apart() {
            lemma_step_synced(v);
            assert(w.epochs_apart()) by {
                assert forall|i: int, j: int, a: int, b: int|
                    0 <= i < w.cursors.len() && 0 <= j < w.cursors.len() && i != j && 0 <= a
                        < w.cursors[i].events.len() && 0 <= b < w.cursors[j].events.len()
                        && #[trigger] w.cursors[i].events[a].new_epoch
                        == #[trigger] w.cursors[j].events[b].new_epoch
                        implies w.cursors[i].events[a].new_epoch == MAX_EPOCH by {
                    assert(w.cursors[i].events == v.cursors[i].events);
                    assert(w.cursors[j].events == v.cursors[j].events);
                    assert(v.cursors[i].events[a].new_epoch == v.cursors[j].events[b].new_epoch);
                }
            }
            if v.sources_sorted() && v.not_beyond(target) {
                assert(w.sources_sorted()) by {
                    assert forall|i: int| 0 <= i < w.cursors.len() implies events_sorted(
                        (#[trigger] w.cursors[i]).events,
                    ) by {
                        assert(events_sorted(v.cursors[i].events));
                    }
                }
                lemma_merge_has_min_key(v);
                assert(w.not_beyond(target)) by {
                    assert forall|i: int| 0 <= i < w.cursors.len() implies (
                    #[trigger] w.cursors[i]).position <= partition_point(
                        w.cursors[i].events,
                        target,
                    ) by {
                        let c = v.cursors[i];
                        assert(c.position <= partition_point(c.events, target));
                        assert(events_sorted(c.events));
                        if v.at_min(i) {
                            crate::sstable::lemma_sorted_partition_point(c.events, target);
                            assert(c.events[c.position].event_key.le(target));
                        }
                    }
                }
            }
        }
    } else {
        if v.synced() && v.sources_sorted() && v.not_beyond(target) {
            assert forall|i: int| 0 <= i < v.cursors.len() implies (
            #[trigger] v.cursors[i]).position == partition_point(v.cursors[i].events, target) by {
                let c = v.cursors[i];
                assert(c.in_bounds());
                assert(events_sorted(c.events));
                crate::sstable::lemma_sorted_partition_point(c.events, target);
                let pp = partition_point(c.events, target);
                if c.position < pp {
                    assert(c.valid());
                    assert(v.in_heap[i]);
                    assert(c.events[c.position].event_key.le(target));
                    lemma_merge_has_min_key(v);
                    assert(v.min_key().le(c.next_key()));
                    crate::key::lemma_point_le_trans(v.min_key(), c.next_key(), target);
                }
            }
        }
    }
}

/// The answer of a merge to "which is the earliest delete at or after
/// `epoch` that covers `target`" is the least such epoch among those that
/// the tables and batches put in effect at `target`, each taken by
/// itself: given boundaries that are sorted and end with a closed range,
/// no delete epoch in two cursors, and a merge in step with its cursors
/// that has not gone beyond `target`.
pub proof fn lemma_merge_answers_point_query(
    v: MergeView,
    target: PointRangeView,
    epoch: HummockEpoch,
)
    requires
        v.synced(),
        v.epochs_apart(),
        v.sources_sorted(),
        v.ranges_closed(),
        v.not_beyond(target),
    ensures
        least_at_least(v.step_until(target).current_epochs, epoch) == least_at_least(
            v.point_epochs(target),
            epoch,
        ),
{
    lemma_step_until(v, target);
    let w = v.step_until(target);
    assert(w.ranges_closed()) by {
        assert forall|i: int|
            0 <= i < w.cursors.len() && (#[trigger] w.cursors[i]).events.len()
                > 0 implies w.cursors[i].events.last().new_epoch == MAX_EPOCH by {
            assert(w.cursors[i].events == v.cursors[i].events);
        }
    }
    lemma_synced_epochs_are_point_epochs(w, target);
    assert(w.point_epochs(target) =~= v.point_epochs(target)) by {
        assert forall|e: HummockEpoch|
            w.point_epochs(target).contains(e) == v.point_epochs(target).contains(e) by {
            if w.point_epochs(target).contains(e) {
                let i = choose|i: int|
                    0 <= i < w.cursors.len() && point_delete_epoch(
                        (#[trigger] w.cursors[i]).events,
                        target,
                    ) == e;
                assert(w.cursors[i].events == v.cursors[i].events);
            }
            if v.point_epochs(target).contains(e) {
                let i = choose|i: int|
                    0 <= i < v.cursors.len() && point_delete_epoch(
                        (#[trigger] v.cursors[i]).events,
                        target,
                    ) == e;
                assert(w.cursors[i].events == v.cursors[i].events);
            }
        }
    }
}

impl ForwardMergeRangeIterator {
    /// Steps over every boundary at or before `target_user_key`.
    pub fn next_until(&mut self, target_user_key: &UserKey)
        requires
            old(self).wf(),
        ensures
            final(self).wf(),
            final(self)@ == old(self)@.step_until(PointRangeView::at(target_user_key@)),
    {
        let ghost target = PointRangeView::at(target_user_key@);
        let ghost goal = self@.step_until(target);
        loop
            invariant
                self.wf(),
                target == PointRangeView::at(target_user_key@),
                self@.step_until(target) == goal,
            ensures
                self.wf(),
                self@ == goal,
            decreases self@.remaining(),
        {
            if !self.is_valid() {
                break;
            }
            if !self.next_extended_user_key().le_point(target_user_key, false) {
                break;
            }
            proof {
                lemma_step_consistent(self@);
            }
            self.next();
        }
    }
}

/// What `boundaries_until` and `reaches` are, one step at a time.
pub proof fn lemma_walk_unfold(v: MergeView, stop: Option<PointRangeView>)
    requires
        v.consistent(),
    ensures
        !v.valid() ==> v.boundaries_until(stop) == Seq::<DeleteEventView>::empty() && !v.reaches(
            stop,
        ),
        v.valid() && stop is Some && stop->0.le(v.min_key()) ==> v.boundaries_until(stop)
            == Seq::<DeleteEventView>::empty() && v.reaches(stop),
        v.valid() && !(stop is Some && stop->0.le(v.min_key())) ==> v.boundaries_until(stop)
            == seq![
            DeleteEventView { event_key: v.min_key(), new_epoch: v.step().earliest_epoch() },
        ] + v.step().boundaries_until(stop) && v.reaches(stop) == v.step().reaches(stop),
{
    reveal(MergeView::boundaries_until);
    reveal(MergeView::reaches);
}

} // verus!
