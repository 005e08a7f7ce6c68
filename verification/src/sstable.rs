//! What a sorted-string table says about range tombstones.

use vstd::prelude::*;
use crate::epoch::{HummockEpoch, MAX_EPOCH};
use crate::key::{PointRange, PointRangeView, UserKey};

verus! {

/// What a `MonotonicDeleteEvent` stands for.
pub struct DeleteEventView {
    pub event_key: PointRangeView,
    pub new_epoch: HummockEpoch,
}

/// One boundary in a table's tombstones: from `event_key` on, up to the
/// next event, the earliest epoch at which a delete is visible is
/// `new_epoch`; `MAX_EPOCH` says that nothing is deleted there.
#[derive(Debug, PartialEq, Eq)]
pub struct MonotonicDeleteEvent {
    pub event_key: PointRange,
    pub new_epoch: HummockEpoch,
}

impl View for MonotonicDeleteEvent {
    type V = DeleteEventView;

    open spec fn view(&self) -> DeleteEventView {
        DeleteEventView { event_key: self.event_key@, new_epoch: self.new_epoch }
    }
}

impl Clone for MonotonicDeleteEvent {
    fn clone(&self) -> (r: Self)
        ensures
            r@ == self@,
    {
        MonotonicDeleteEvent { event_key: self.event_key.clone(), new_epoch: self.new_epoch }
    }
}

/// The events of a vector, each by its view.
pub open spec fn events_view(events: Seq<MonotonicDeleteEvent>) -> Seq<DeleteEventView> {
    events.map_values(|e: MonotonicDeleteEvent| e@)
}

/// The keys of `events` never go down.
pub open spec fn events_sorted(events: Seq<DeleteEventView>) -> bool {
    forall|i: int, j: int|
        0 <= i <= j < events.len() ==> (#[trigger] events[i]).event_key.le(
            (#[trigger] events[j]).event_key,
        )
}

/// `idx` parts `events` into those at or before `target` and those after it.
pub open spec fn is_partition_point(
    events: Seq<DeleteEventView>,
    target: PointRangeView,
    idx: int,
) -> bool {
    &&& 0 <= idx <= events.len()
    &&& forall|i: int| 0 <= i < idx ==> (#[trigger] events[i]).event_key.le(target)
    &&& forall|i: int| idx <= i < events.len() ==> !(#[trigger] events[i]).event_key.le(target)
}

/// The epoch in effect just before position `idx`: that of the event
/// before it, `MAX_EPOCH` at the start.
pub open spec fn epoch_before(events: Seq<DeleteEventView>, idx: int) -> HummockEpoch {
    if 0 < idx <= events.len() {
        events[idx - 1].new_epoch
    } else {
        MAX_EPOCH
    }
}

/// The earliest delete epoch that sorted `events` put in effect at `target`.
pub open spec fn point_delete_epoch(
    events: Seq<DeleteEventView>,
    target: PointRangeView,
) -> HummockEpoch {
    epoch_before(events, partition_point(events, target))
}

/// How many events of `events`, from the start, lie at or before `target`.
pub open spec fn partition_point(events: Seq<DeleteEventView>, target: PointRangeView) -> int
    decreases events.len(),
{
    if events.len() == 0 || !events[0].event_key.le(target) {
        0
    } else {
        1 + partition_point(events.drop_first(), target)
    }
}

/// In sorted events at most one index is a partition point.
pub proof fn lemma_partition_point_unique(
    events: Seq<DeleteEventView>,
    target: PointRangeView,
    a: int,
    b: int,
)
    requires
        is_partition_point(events, target, a),
        is_partition_point(events, target, b),
    ensures
        a == b,
{
    if a < b {
        assert(events[a].event_key.le(target));
    } else if b < a {
        assert(events[b].event_key.le(target));
    }
}

/// The count of leading events at or before `target` is the partition
/// point wherever there is one.
pub proof fn lemma_partition_point_is(
    events: Seq<DeleteEventView>,
    target: PointRangeView,
    idx: int,
)
    requires
        is_partition_point(events, target, idx),
    ensures
        partition_point(events, target) == idx,
    decreases events.len(),
{
    if events.len() == 0 {
    } else if idx == 0 {
        assert(!events[0].event_key.le(target));
    } else {
        assert(events[0].event_key.le(target));
        let rest = events.drop_first();
        assert forall|i: int| 0 <= i < idx - 1 implies (#[trigger] rest[i]).event_key.le(
            target,
        ) by {
            assert(rest[i] == events[i + 1]);
        }
        assert forall|i: int| idx - 1 <= i < rest.len() implies !(#[trigger] rest[i]).event_key.le(
            target,
        ) by {
            assert(rest[i] == events[i + 1]);
        }
        lemma_partition_point_is(rest, target, idx - 1);
    }
}

/// In sorted events the count of leading events at or before `target`
/// parts them.
pub proof fn lemma_sorted_partition_point(events: Seq<DeleteEventView>, target: PointRangeView)
    requires
        events_sorted(events),
    ensures
        is_partition_point(events, target, partition_point(events, target)),
    decreases events.len(),
{
    if events.len() == 0 {
    } else if !events[0].event_key.le(target) {
        assert forall|i: int| 0 <= i < events.len() implies !(#[trigger] events[i]).event_key.le(
            target,
        ) by {
            assert(events[0].event_key.le(events[i].event_key));
            if events[i].event_key.le(target) {
                crate::key::lemma_point_le_trans(
                    events[0].event_key,
                    events[i].event_key,
                    target,
                );
            }
        }
    } else {
        let rest = events.drop_first();
        assert forall|i: int, j: int| 0 <= i <= j < rest.len() implies (
        #[trigger] rest[i]).event_key.le((#[trigger] rest[j]).event_key) by {
            assert(rest[i] == events[i + 1]);
            assert(rest[j] == events[j + 1]);
        }
        lemma_sorted_partition_point(rest, target);
        let p = partition_point(rest, target);
        assert forall|i: int| 0 <= i < p + 1 implies (#[trigger] events[i]).event_key.le(
            target,
        ) by {
            if i > 0 {
                assert(rest[i - 1] == events[i]);
            }
        }
        assert forall|i: int| p + 1 <= i < events.len() implies !(
        #[trigger] events[i]).event_key.le(target) by {
            assert(rest[i - 1] == events[i]);
        }
    }
}

/// The index of the first event of `events` that lies after `target`, by
/// binary search; `events.len()` where none does.
pub fn search_partition_point(events: &Vec<MonotonicDeleteEvent>, target_user_key: &UserKey) -> (idx:
    usize)
    ensures
        idx <= events.len(),
        events_sorted(events_view(events@)) ==> is_partition_point(
            events_view(events@),
            PointRangeView::at(target_user_key@),
            idx as int,
        ),
        events_sorted(events_view(events@)) ==> idx == partition_point(
            events_view(events@),
            PointRangeView::at(target_user_key@),
        ),
{
    let ghost evs = events_view(events@);
    let ghost target = PointRangeView::at(target_user_key@);
    let mut lo: usize = 0;
    let mut hi: usize = events.len();
    while lo < hi
        invariant
            lo <= hi <= events.len(),
            evs == events_view(events@),
            target == PointRangeView::at(target_user_key@),
            events_sorted(evs) ==> forall|i: int|
                0 <= i < lo ==> (#[trigger] evs[i]).event_key.le(target),
            events_sorted(evs) ==> forall|i: int|
                hi <= i < evs.len() ==> !(#[trigger] evs[i]).event_key.le(target),
        decreases hi - lo,
    {
        let mid: usize = lo + (hi - lo) / 2;
        let at_or_before = events[mid].event_key.le_point(target_user_key, false);
        proof {
            assert(evs[mid as int] == events@[mid as int]@);
            if events_sorted(evs) {
                if at_or_before {
                    assert forall|i: int| 0 <= i < mid + 1 implies (#[trigger] evs[i]).event_key.le(
                        target,
                    ) by {
                        assert(evs[i].event_key.le(evs[mid as int].event_key));
                        crate::key::lemma_point_le_trans(
                            evs[i].event_key,
                            evs[mid as int].event_key,
                            target,
                        );
                    }
                } else {
                    assert forall|i: int| mid <= i < evs.len() implies !(
                    #[trigger] evs[i]).event_key.le(target) by {
                        assert(evs[mid as int].event_key.le(evs[i].event_key));
                        if evs[i].event_key.le(target) {
                            crate::key::lemma_point_le_trans(
                                evs[mid as int].event_key,
                                evs[i].event_key,
                                target,
                            );
                        }
                    }
                }
            }
        }
        if at_or_before {
            lo = mid + 1;
        } else {
            hi = mid;
        }
    }
    proof {
        if events_sorted(evs) {
            lemma_partition_point_is(evs, target, lo as int);
        }
    }
    lo
}

/// The part of a table's metadata that this library reads.
#[derive(Debug, PartialEq, Eq)]
pub struct SstableMeta {
    /// The table's tombstone boundaries, sorted by key.
    pub monotonic_tombstone_events: Vec<MonotonicDeleteEvent>,
}

/// A sorted-string table as held in memory.
#[derive(Debug, PartialEq, Eq)]
pub struct Sstable {
    pub id: u64,
    pub meta: SstableMeta,
}

impl Sstable {
    /// The table's tombstone boundaries, each by its view.
    pub open spec fn events(&self) -> Seq<DeleteEventView> {
        events_view(self.meta.monotonic_tombstone_events@)
    }

    pub fn new(id: u64, meta: SstableMeta) -> (r: Self)
        ensures
            r.id == id,
            r.meta == meta,
    {
        Sstable { id, meta }
    }
}

/// A table handed to a reader.
pub type TableHolder = Sstable;

} // verus!
