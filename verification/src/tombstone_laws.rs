//! What the boundaries that a merge collects mean: between the keys asked
//! for they put in effect, at every point, the earliest delete epoch that
//! a table or batch puts in effect there.

use vstd::prelude::*;
use crate::delete_range_aggregator::{
    dedup_events, event_repeats, opening_boundary, stop_before, tombstones_between,
    with_closing_boundary,
};
use crate::delete_range_iterator::{
    lemma_merge_has_min_key, lemma_step_consistent, lemma_step_synced,
    lemma_synced_epochs_are_point_epochs, lemma_walk_unfold, MergeView,
};
use crate::epoch::{HummockEpoch, MAX_EPOCH};
use crate::epoch_set::least_at_least;
use crate::key::{lemma_point_le_total, lemma_point_le_trans, PointRangeView, UserKeyView};
use crate::sstable::{
    epoch_before, events_sorted, is_partition_point, lemma_partition_point_is,
    lemma_sorted_partition_point, partition_point, point_delete_epoch, DeleteEventView,
};

verus! {

/// The earliest delete epoch that the cursors of `v` put in effect at
/// `target`, each cursor taken by itself; `MAX_EPOCH` where none does.
pub open spec fn earliest_point_epoch(v: MergeView, target: PointRangeView) -> HummockEpoch {
    least_at_least(v.point_epochs(target), 0)
}

/// Whether `t` lies at or after `from` and, where there is a `stop`,
/// before it.
pub open spec fn in_stretch(
    from: PointRangeView,
    stop: Option<PointRangeView>,
    t: PointRangeView,
) -> bool {
    from.le(t) && (stop is Some ==> !stop->0.le(t))
}

/// The epoch that sorted boundaries with one more at their end put in
/// effect: that of the new boundary from its key on, before it what the
/// others put in effect.
pub proof fn lemma_point_epoch_push(
    events: Seq<DeleteEventView>,
    e: DeleteEventView,
    t: PointRangeView,
)
    requires
        events_sorted(events.push(e)),
    ensures
        events_sorted(events),
        point_delete_epoch(events.push(e), t) == if e.event_key.le(t) {
            e.new_epoch
        } else {
            point_delete_epoch(events, t)
        },
{
    let more = events.push(e);
    assert forall|i: int, j: int| 0 <= i <= j < events.len() implies (
    #[trigger] events[i]).event_key.le((#[trigger] events[j]).event_key) by {
        assert(more[i] == events[i]);
        assert(more[j] == events[j]);
    }
    lemma_sorted_partition_point(events, t);
    let p = partition_point(events, t);
    if e.event_key.le(t) {
        assert forall|i: int| 0 <= i < more.len() implies (#[trigger] more[i]).event_key.le(t) by {
            assert(more[i].event_key.le(more[more.len() - 1].event_key));
            lemma_point_le_trans(more[i].event_key, e.event_key, t);
        }
        lemma_partition_point_is(more, t, more.len() as int);
    } else {
        assert forall|i: int| 0 <= i < p implies (#[trigger] more[i]).event_key.le(t) by {
            assert(more[i] == events[i]);
        }
        assert forall|i: int| p <= i < more.len() implies !(#[trigger] more[i]).event_key.le(t) by {
            if i < events.len() {
                assert(more[i] == events[i]);
            }
        }
        lemma_partition_point_is(more, t, p);
        if p > 0 {
            assert(more[p - 1] == events[p - 1]);
        }
    }
}

/// Boundaries whose keys all lie at or before `t` put in effect at `t`
/// the epoch of their last; `MAX_EPOCH` where there is none.
pub proof fn lemma_point_epoch_past_all(events: Seq<DeleteEventView>, t: PointRangeView)
    requires
        forall|i: int| 0 <= i < events.len() ==> (#[trigger] events[i]).event_key.le(t),
    ensures
        point_delete_epoch(events, t) == if events.len() > 0 {
            events.last().new_epoch
        } else {
            MAX_EPOCH
        },
{
    lemma_partition_point_is(events, t, events.len() as int);
}

/// Dropping the boundaries that repeat the one before leaves boundaries
/// that are sorted, end with the same epoch, and put in effect what all
/// of them do.
pub proof fn lemma_dedup_keeps_point_epochs(events: Seq<DeleteEventView>)
    requires
        events_sorted(events),
    ensures
        events_sorted(dedup_events(events)),
        events.len() > 0 ==> dedup_events(events).len() > 0 && dedup_events(
            events,
        ).last().new_epoch == events.last().new_epoch && dedup_events(events).last().event_key.le(
            events.last().event_key,
        ),
        events.len() == 0 ==> dedup_events(events).len() == 0,
        forall|t: PointRangeView| #[trigger]
            point_delete_epoch(dedup_events(events), t) == point_delete_epoch(events, t),
    decreases events.len(),
{
    if events.len() > 0 {
        let rest = events.drop_last();
        let e = events.last();
        assert(rest.push(e) =~= events);
        assert(e == events[events.len() - 1]);
        assert forall|i: int, j: int| 0 <= i <= j < rest.len() implies (
        #[trigger] rest[i]).event_key.le((#[trigger] rest[j]).event_key) by {
            assert(rest[i] == events[i]);
            assert(rest[j] == events[j]);
        }
        lemma_dedup_keeps_point_epochs(rest);
        let kept = dedup_events(rest);
        let out = dedup_events(events);
        crate::key::lemma_point_le_refl(e.event_key);
        if rest.len() > 0 {
            assert(rest.last() == events[events.len() - 2]);
            assert(rest.last().event_key.le(e.event_key));
            lemma_point_le_trans(kept.last().event_key, rest.last().event_key, e.event_key);
        }
        if kept.len() > 0 && event_repeats(kept.last(), e) {
            assert(out == kept);
            assert forall|t: PointRangeView| #[trigger]
                point_delete_epoch(out, t) == point_delete_epoch(events, t) by {
                lemma_point_epoch_push(rest, e, t);
                if e.event_key.le(t) {
                    assert forall|i: int| 0 <= i < kept.len() implies (
                    #[trigger] kept[i]).event_key.le(t) by {
                        assert(kept[i].event_key.le(kept[kept.len() - 1].event_key));
                        lemma_point_le_trans(
                            kept[i].event_key,
                            kept.last().event_key,
                            e.event_key,
                        );
                        lemma_point_le_trans(kept[i].event_key, e.event_key, t);
                    }
                    lemma_point_epoch_past_all(kept, t);
                } else {
                    assert(point_delete_epoch(kept, t) == point_delete_epoch(rest, t));
                }
            }
        } else {
            assert(out == kept.push(e));
            assert(events_sorted(out)) by {
                assert forall|i: int, j: int| 0 <= i <= j < out.len() implies (
                #[trigger] out[i]).event_key.le((#[trigger] out[j]).event_key) by {
                    if j < kept.len() {
                        assert(out[i] == kept[i]);
                        assert(out[j] == kept[j]);
                    } else if i < kept.len() {
                        assert(out[i] == kept[i]);
                        assert(kept[i].event_key.le(kept[kept.len() - 1].event_key));
                        lemma_point_le_trans(
                            kept[i].event_key,
                            kept.last().event_key,
                            e.event_key,
                        );
                    }
                }
            }
            assert forall|t: PointRangeView| #[trigger]
                point_delete_epoch(out, t) == point_delete_epoch(events, t) by {
                lemma_point_epoch_push(rest, e, t);
                lemma_point_epoch_push(kept, e, t);
                assert(point_delete_epoch(kept, t) == point_delete_epoch(rest, t));
            }
        }
    }
}

/// The cursors stand around `point`: what lies behind a cursor lies at or
/// before `point`, and what lies ahead of it lies at or after `point`.
#[verifier::opaque]
pub open spec fn stands_around(v: MergeView, point: PointRangeView) -> bool {
    &&& forall|i: int, a: int|
        0 <= i < v.cursors.len() && 0 <= a < v.cursors[i].position ==> (
        #[trigger] v.cursors[i].events[a]).event_key.le(point)
    &&& forall|i: int|
        0 <= i < v.cursors.len() && (#[trigger] v.cursors[i]).valid() ==> point.le(
            v.cursors[i].next_key(),
        )
}

/// What a merge needs to answer as its tables do one by one: boundaries
/// that are sorted and end with a closed range, no delete epoch in two
/// cursors, and epochs in effect that are in step with the cursors.
#[verifier::opaque]
pub open spec fn sound(v: MergeView) -> bool {
    &&& v.synced()
    &&& v.epochs_apart()
    &&& v.sources_sorted()
    &&& v.ranges_closed()
}

/// Where the cursors of a sound merge stand around `point`, the merge has
/// in effect what its cursors put in effect at every point from `point`
/// on that lies before its next boundary.
pub proof fn lemma_in_effect_before_next(v: MergeView, point: PointRangeView, t: PointRangeView)
    requires
        sound(v),
        stands_around(v, point),
        point.le(t),
        v.valid() ==> !v.min_key().le(t),
    ensures
        v.earliest_epoch() == earliest_point_epoch(v, t),
{
    reveal(sound);
    reveal(stands_around);
    assert(v.positioned_after(t)) by {
        assert forall|i: int| 0 <= i < v.cursors.len() implies (#[trigger] v.cursors[i]).position
            == partition_point(v.cursors[i].events, t) by {
            let c = v.cursors[i];
            assert(c.in_bounds());
            assert(events_sorted(c.events));
            assert forall|a: int| 0 <= a < c.position implies (#[trigger] c.events[a]).event_key.le(
                t,
            ) by {
                assert(v.cursors[i].events[a].event_key.le(point));
                lemma_point_le_trans(c.events[a].event_key, point, t);
            }
            assert forall|a: int| c.position <= a < c.events.len() implies !(
            #[trigger] c.events[a]).event_key.le(t) by {
                assert(c.valid());
                assert(v.in_heap[i]);
                lemma_merge_has_min_key(v);
                assert(v.min_key().le(c.next_key()));
                assert(c.events[c.position].event_key.le(c.events[a].event_key));
                if c.events[a].event_key.le(t) {
                    lemma_point_le_trans(v.min_key(), c.next_key(), c.events[a].event_key);
                    lemma_point_le_trans(v.min_key(), c.events[a].event_key, t);
                }
            }
            lemma_partition_point_is(c.events, t, c.position);
        }
    }
    lemma_synced_epochs_are_point_epochs(v, t);
}

/// A step of a sound merge whose cursors stand around a point leaves a
/// sound merge whose cursors stand around the boundary stepped over, and
/// that puts the same epochs in effect point by point.
pub proof fn lemma_step_stands_around(v: MergeView, point: PointRangeView)
    requires
        sound(v),
        stands_around(v, point),
        v.valid(),
    ensures
        sound(v.step()),
        stands_around(v.step(), v.min_key()),
        point.le(v.min_key()),
        forall|t: PointRangeView| #[trigger]
            earliest_point_epoch(v.step(), t) == earliest_point_epoch(v, t),
{
    reveal(sound);
    reveal(stands_around);
    let w = v.step();
    let k = v.min_key();
    lemma_step_consistent(v);
    lemma_step_synced(v);
    lemma_merge_has_min_key(v);
    let m = choose|i: int|
        0 <= i < v.in_heap.len() && #[trigger] v.in_heap[i] && v.cursors[i].next_key() == k;
    assert(v.cursors[m].valid());
    assert(point.le(k));
    assert forall|i: int| 0 <= i < w.cursors.len() implies (#[trigger] w.cursors[i]).events
        == v.cursors[i].events by {}
    assert(w.epochs_apart()) by {
        assert forall|i: int, j: int, a: int, b: int|
            0 <= i < w.cursors.len() && 0 <= j < w.cursors.len() && i != j && 0 <= a
                < w.cursors[i].events.len() && 0 <= b < w.cursors[j].events.len()
                && #[trigger] w.cursors[i].events[a].new_epoch
                == #[trigger] w.cursors[j].events[b].new_epoch implies w.cursors[i].events[a]
            .new_epoch == MAX_EPOCH by {
            assert(w.cursors[i].events == v.cursors[i].events);
            assert(w.cursors[j].events == v.cursors[j].events);
            assert(v.cursors[i].events[a].new_epoch == v.cursors[j].events[b].new_epoch);
        }
    }
    assert(w.sources_sorted()) by {
        assert forall|i: int| 0 <= i < w.cursors.len() implies events_sorted(
            (#[trigger] w.cursors[i]).events,
        ) by {
            assert(events_sorted(v.cursors[i].events));
        }
    }
    assert(w.ranges_closed()) by {
        assert forall|i: int|
            0 <= i < w.cursors.len() && (#[trigger] w.cursors[i]).events.len()
                > 0 implies w.cursors[i].events.last().new_epoch == MAX_EPOCH by {
            assert(v.cursors[i].events.len() > 0);
        }
    }
    assert(stands_around(w, k)) by {
        assert forall|i: int, a: int|
            0 <= i < w.cursors.len() && 0 <= a < w.cursors[i].position implies (
        #[trigger] w.cursors[i].events[a]).event_key.le(k) by {
            let c = v.cursors[i];
            assert(events_sorted(c.events));
            if v.at_min(i) {
                assert(c.valid());
                assert(c.events[a].event_key.le(c.events[c.position].event_key));
            } else {
                assert(v.cursors[i].events[a].event_key.le(point));
                lemma_point_le_trans(c.events[a].event_key, point, k);
            }
        }
        assert forall|i: int|
            0 <= i < w.cursors.len() && (#[trigger] w.cursors[i]).valid() implies k.le(
            w.cursors[i].next_key(),
        ) by {
            let c = v.cursors[i];
            assert(events_sorted(c.events));
            if v.at_min(i) {
                assert(c.events[c.position].event_key.le(c.events[c.position + 1].event_key));
            } else {
                assert(c.valid());
                assert(v.in_heap[i]);
            }
        }
    }
    assert forall|t: PointRangeView| #[trigger]
        earliest_point_epoch(w, t) == earliest_point_epoch(v, t) by {
        lemma_same_point_epochs(v, w, t);
    }
}

/// Merges over the same boundaries have cursors that put the same epochs
/// in effect.
pub proof fn lemma_same_point_epochs(v: MergeView, w: MergeView, t: PointRangeView)
    requires
        w.same_sources(v),
    ensures
        w.point_epochs(t) == v.point_epochs(t),
{
    assert forall|e: HummockEpoch| w.point_epochs(t).contains(e) == v.point_epochs(t).contains(
        e,
    ) by {
        if w.point_epochs(t).contains(e) {
            let i = choose|i: int|
                0 <= i < w.cursors.len() && point_delete_epoch(
                    (#[trigger] w.cursors[i]).events,
                    t,
                ) == e;
            assert(w.cursors[i].events == v.cursors[i].events);
        }
        if v.point_epochs(t).contains(e) {
            let i = choose|i: int|
                0 <= i < v.cursors.len() && point_delete_epoch(
                    (#[trigger] v.cursors[i]).events,
                    t,
                ) == e;
            assert(w.cursors[i].events == v.cursors[i].events);
        }
    }
    assert(w.point_epochs(t) =~= v.point_epochs(t));
}

/// The boundaries collected so far, `seen`, say what the cursors say
/// before `point`, and end with the epoch that the merge has in effect.
pub open spec fn collected(
    v: MergeView,
    from: PointRangeView,
    point: PointRangeView,
    seen: Seq<DeleteEventView>,
) -> bool {
    &&& events_sorted(seen)
    &&& forall|i: int| 0 <= i < seen.len() ==> from.le((#[trigger] seen[i]).event_key)
        && seen[i].event_key.le(point)
    &&& v.earliest_epoch() == if seen.len() > 0 {
        seen.last().new_epoch
    } else {
        MAX_EPOCH
    }
    &&& forall|t: PointRangeView|
        from.le(t) && !point.le(t) ==> #[trigger] point_delete_epoch(seen, t)
            == earliest_point_epoch(v, t)
}

/// A sound merge is consistent.
pub proof fn lemma_sound_consistent(v: MergeView)
    requires
        sound(v),
    ensures
        v.consistent(),
{
    reveal(sound);
}

/// The boundary that ends the last range at `largest`.
pub open spec fn closing_boundary(largest: UserKeyView) -> DeleteEventView {
    DeleteEventView { event_key: PointRangeView::at(largest), new_epoch: MAX_EPOCH }
}

/// Where a sound merge has come to its end or to `stop`, the boundaries
/// collected, closed where the merge goes on, put in effect at every
/// point of the stretch what the cursors put in effect there.
pub proof fn lemma_collected_at_the_end(
    v: MergeView,
    from: PointRangeView,
    point: PointRangeView,
    seen: Seq<DeleteEventView>,
    stop: Option<PointRangeView>,
    largest: UserKeyView,
    reaches: bool,
)
    requires
        sound(v),
        stands_around(v, point),
        collected(v, from, point, seen),
        stop is Some ==> stop->0 == PointRangeView::at(largest) && !stop->0.le(point),
        !v.valid() || (stop is Some && stop->0.le(v.min_key())),
        stop is None ==> !reaches,
    ensures
        forall|t: PointRangeView|
            in_stretch(from, stop, t) ==> #[trigger] point_delete_epoch(
                with_closing_boundary(seen, reaches, largest),
                t,
            ) == earliest_point_epoch(v, t),
        events_sorted(with_closing_boundary(seen, reaches, largest)),
{
    let all = with_closing_boundary(seen, reaches, largest);
    if reaches && seen.len() > 0 {
        lemma_closed_sorted(point, seen, stop->0, largest);
    }
    assert forall|t: PointRangeView| in_stretch(from, stop, t) implies #[trigger] point_delete_epoch(
        all,
        t,
    ) == earliest_point_epoch(v, t) by {
        lemma_end_point(v, from, point, seen, stop, largest, reaches, t);
    }
}

/// What `lemma_collected_at_the_end` says, for one point.
pub proof fn lemma_end_point(
    v: MergeView,
    from: PointRangeView,
    point: PointRangeView,
    seen: Seq<DeleteEventView>,
    stop: Option<PointRangeView>,
    largest: UserKeyView,
    reaches: bool,
    t: PointRangeView,
)
    requires
        sound(v),
        stands_around(v, point),
        collected(v, from, point, seen),
        stop is Some ==> stop->0 == PointRangeView::at(largest) && !stop->0.le(point),
        !v.valid() || (stop is Some && stop->0.le(v.min_key())),
        stop is None ==> !reaches,
        in_stretch(from, stop, t),
    ensures
        point_delete_epoch(with_closing_boundary(seen, reaches, largest), t)
            == earliest_point_epoch(v, t),
{
    let all = with_closing_boundary(seen, reaches, largest);
    let closing = closing_boundary(largest);
    lemma_seen_point(v, from, point, seen, stop, t);
    if reaches && seen.len() > 0 {
        assert(all == seen.push(closing));
        lemma_closed_sorted(point, seen, stop->0, largest);
        lemma_point_epoch_push(seen, closing, t);
    }
}

/// Boundaries that lie at or before a point before `stop` stay sorted
/// with a boundary at `stop` after them.
pub proof fn lemma_closed_sorted(
    point: PointRangeView,
    seen: Seq<DeleteEventView>,
    stop: PointRangeView,
    largest: UserKeyView,
)
    requires
        events_sorted(seen),
        forall|i: int| 0 <= i < seen.len() ==> (#[trigger] seen[i]).event_key.le(point),
        stop == PointRangeView::at(largest),
        !stop.le(point),
    ensures
        events_sorted(seen.push(closing_boundary(largest))),
{
    let closing = closing_boundary(largest);
    let all = seen.push(closing);
    assert forall|i: int, j: int| 0 <= i <= j < all.len() implies (#[trigger] all[i]).event_key.le(
        (#[trigger] all[j]).event_key,
    ) by {
        if j < seen.len() {
            assert(all[i] == seen[i]);
            assert(all[j] == seen[j]);
        } else if i < seen.len() {
            assert(all[i] == seen[i]);
            lemma_point_le_total(point, stop);
            lemma_point_le_trans(seen[i].event_key, point, stop);
        } else {
            crate::key::lemma_point_le_refl(closing.event_key);
        }
    }
}

/// Where a sound merge has come to its end or to `stop`, the boundaries
/// collected put in effect at a point of the stretch what the cursors put
/// in effect there.
pub proof fn lemma_seen_point(
    v: MergeView,
    from: PointRangeView,
    point: PointRangeView,
    seen: Seq<DeleteEventView>,
    stop: Option<PointRangeView>,
    t: PointRangeView,
)
    requires
        sound(v),
        stands_around(v, point),
        collected(v, from, point, seen),
        !v.valid() || (stop is Some && stop->0.le(v.min_key())),
        in_stretch(from, stop, t),
    ensures
        point_delete_epoch(seen, t) == earliest_point_epoch(v, t),
{
    lemma_point_le_total(point, t);
    if point.le(t) {
        if v.valid() {
            if v.min_key().le(t) {
                lemma_point_le_trans(stop->0, v.min_key(), t);
            }
        }
        lemma_in_effect_before_next(v, point, t);
        assert forall|i: int| 0 <= i < seen.len() implies (#[trigger] seen[i]).event_key.le(t) by {
            lemma_point_le_trans(seen[i].event_key, point, t);
        }
        lemma_point_epoch_past_all(seen, t);
    }
}

/// A step of a sound merge adds to the boundaries collected one for the
/// boundary stepped over, and what is collected then says what the
/// cursors say before that boundary.
pub proof fn lemma_collected_step(
    v: MergeView,
    from: PointRangeView,
    point: PointRangeView,
    seen: Seq<DeleteEventView>,
)
    requires
        sound(v),
        stands_around(v, point),
        collected(v, from, point, seen),
        from.le(point),
        v.valid(),
    ensures
        collected(
            v.step(),
            from,
            v.min_key(),
            seen.push(
                DeleteEventView { event_key: v.min_key(), new_epoch: v.step().earliest_epoch() },
            ),
        ),
{
    let k = v.min_key();
    let w = v.step();
    let e = DeleteEventView { event_key: k, new_epoch: w.earliest_epoch() };
    let more = seen.push(e);
    lemma_step_stands_around(v, point);
    crate::key::lemma_point_le_refl(k);
    lemma_point_le_trans(from, point, k);
    assert(events_sorted(more)) by {
        assert forall|i: int, j: int| 0 <= i <= j < more.len() implies (
        #[trigger] more[i]).event_key.le((#[trigger] more[j]).event_key) by {
            if j < seen.len() {
                assert(more[i] == seen[i]);
                assert(more[j] == seen[j]);
            } else if i < seen.len() {
                assert(more[i] == seen[i]);
                lemma_point_le_trans(seen[i].event_key, point, k);
            }
        }
    }
    assert forall|i: int| 0 <= i < more.len() implies from.le((#[trigger] more[i]).event_key)
        && more[i].event_key.le(k) by {
        if i < seen.len() {
            assert(more[i] == seen[i]);
            lemma_point_le_trans(seen[i].event_key, point, k);
        }
    }
    assert forall|t: PointRangeView| from.le(t) && !k.le(t) implies #[trigger] point_delete_epoch(
        more,
        t,
    ) == earliest_point_epoch(w, t) by {
        lemma_step_point(v, from, point, seen, t);
    }
}

/// What `lemma_collected_step` says of the epochs in effect, for one
/// point before the boundary stepped over.
pub proof fn lemma_step_point(
    v: MergeView,
    from: PointRangeView,
    point: PointRangeView,
    seen: Seq<DeleteEventView>,
    t: PointRangeView,
)
    requires
        sound(v),
        stands_around(v, point),
        collected(v, from, point, seen),
        v.valid(),
        from.le(t),
        !v.min_key().le(t),
        events_sorted(
            seen.push(
                DeleteEventView { event_key: v.min_key(), new_epoch: v.step().earliest_epoch() },
            ),
        ),
    ensures
        point_delete_epoch(
            seen.push(
                DeleteEventView { event_key: v.min_key(), new_epoch: v.step().earliest_epoch() },
            ),
            t,
        ) == earliest_point_epoch(v.step(), t),
{
    let k = v.min_key();
    let w = v.step();
    let e = DeleteEventView { event_key: k, new_epoch: w.earliest_epoch() };
    lemma_step_stands_around(v, point);
    lemma_point_epoch_push(seen, e, t);
    lemma_point_le_total(point, t);
    if point.le(t) {
        lemma_in_effect_before_next(v, point, t);
        assert forall|i: int| 0 <= i < seen.len() implies (#[trigger] seen[i]).event_key.le(t) by {
            lemma_point_le_trans(seen[i].event_key, point, t);
        }
        lemma_point_epoch_past_all(seen, t);
    }
    assert(earliest_point_epoch(w, t) == earliest_point_epoch(v, t));
}

/// The boundaries that a sound merge collects from where it stands, after
/// those collected so far, put in effect at every point of the stretch
/// what the cursors put in effect there.
pub proof fn lemma_collected_boundaries(
    v: MergeView,
    from: PointRangeView,
    point: PointRangeView,
    seen: Seq<DeleteEventView>,
    stop: Option<PointRangeView>,
    largest: UserKeyView,
)
    requires
        sound(v),
        stands_around(v, point),
        collected(v, from, point, seen),
        from.le(point),
        stop is Some ==> stop->0 == PointRangeView::at(largest) && !stop->0.le(point),
    ensures
        forall|t: PointRangeView|
            in_stretch(from, stop, t) ==> #[trigger] point_delete_epoch(
                with_closing_boundary(seen + v.boundaries_until(stop), v.reaches(stop), largest),
                t,
            ) == earliest_point_epoch(v, t),
        events_sorted(
            with_closing_boundary(seen + v.boundaries_until(stop), v.reaches(stop), largest),
        ),
    decreases v.remaining(),
{
    lemma_sound_consistent(v);
    lemma_walk_unfold(v, stop);
    if !v.valid() || (stop is Some && stop->0.le(v.min_key())) {
        assert(seen + Seq::<DeleteEventView>::empty() =~= seen);
        lemma_collected_at_the_end(v, from, point, seen, stop, largest, v.reaches(stop));
    } else {
        let k = v.min_key();
        let w = v.step();
        let e = DeleteEventView { event_key: k, new_epoch: w.earliest_epoch() };
        let more = seen.push(e);
        lemma_step_consistent(v);
        lemma_step_stands_around(v, point);
        lemma_collected_step(v, from, point, seen);
        lemma_point_le_trans(from, point, k);
        if stop is Some {
            lemma_point_le_total(stop->0, k);
        }
        lemma_collected_boundaries(w, from, k, more, stop, largest);
        assert(more + w.boundaries_until(stop) =~= seen + (seq![e] + w.boundaries_until(stop)));
    }
}

/// The boundaries that `get_tombstone_between` gives mean what the tables
/// and batches mean: at every point from `smallest_user_key` on that lies
/// before `largest_user_key`, or at every point from `smallest_user_key`
/// on where `largest_user_key` is empty, they put in effect the earliest
/// delete epoch that a table or batch puts in effect there. This holds of
/// boundaries that are sorted and end with a closed range, with no delete
/// epoch in two tables or batches.
pub proof fn lemma_tombstones_between_mean_the_same(
    v: MergeView,
    smallest_user_key: UserKeyView,
    largest_user_key: UserKeyView,
    t: PointRangeView,
)
    requires
        v.consistent(),
        v.epochs_apart(),
        v.sources_sorted(),
        v.ranges_closed(),
        in_stretch(
            PointRangeView::at(smallest_user_key),
            stop_before(largest_user_key),
            t,
        ),
    ensures
        point_delete_epoch(
            tombstones_between(
                v.sought(PointRangeView::at(smallest_user_key)),
                smallest_user_key,
                largest_user_key,
            ),
            t,
        ) == earliest_point_epoch(v, t),
{
    reveal(sound);
    reveal(stands_around);
    let from = PointRangeView::at(smallest_user_key);
    let stop = stop_before(largest_user_key);
    let s = v.sought(from);
    assert(s.same_sources(v));
    assert(sound(s)) by {
        assert forall|i: int| 0 <= i < s.cursors.len() implies (#[trigger] s.cursors[i]).in_bounds() by {
            assert(events_sorted(v.cursors[i].events));
            lemma_sorted_partition_point(v.cursors[i].events, from);
        }
        assert(s.consistent());
        assert forall|i: int| 0 <= i < s.cursors.len() implies #[trigger] s.in_heap[i]
            == s.cursors[i].valid() by {}
        assert(s.epochs_apart()) by {
            assert forall|i: int, j: int, a: int, b: int|
                0 <= i < s.cursors.len() && 0 <= j < s.cursors.len() && i != j && 0 <= a
                    < s.cursors[i].events.len() && 0 <= b < s.cursors[j].events.len()
                    && #[trigger] s.cursors[i].events[a].new_epoch
                    == #[trigger] s.cursors[j].events[b].new_epoch implies s.cursors[i].events[a]
                .new_epoch == MAX_EPOCH by {
                assert(v.cursors[i].events[a].new_epoch == v.cursors[j].events[b].new_epoch);
            }
        }
        assert(s.sources_sorted()) by {
            assert forall|i: int| 0 <= i < s.cursors.len() implies events_sorted(
                (#[trigger] s.cursors[i]).events,
            ) by {
                assert(events_sorted(v.cursors[i].events));
            }
        }
        assert(s.ranges_closed()) by {
            assert forall|i: int|
                0 <= i < s.cursors.len() && (#[trigger] s.cursors[i]).events.len()
                    > 0 implies s.cursors[i].events.last().new_epoch == MAX_EPOCH by {
                assert(v.cursors[i].events.len() > 0);
            }
        }
    }
    assert(stands_around(s, from)) by {
        assert forall|i: int, a: int|
            0 <= i < s.cursors.len() && 0 <= a < s.cursors[i].position implies (
        #[trigger] s.cursors[i].events[a]).event_key.le(from) by {
            assert(events_sorted(v.cursors[i].events));
            lemma_sorted_partition_point(v.cursors[i].events, from);
        }
        assert forall|i: int|
            0 <= i < s.cursors.len() && (#[trigger] s.cursors[i]).valid() implies from.le(
            s.cursors[i].next_key(),
        ) by {
            assert(events_sorted(v.cursors[i].events));
            lemma_sorted_partition_point(v.cursors[i].events, from);
            lemma_point_le_total(from, s.cursors[i].next_key());
        }
    }
    let seen = opening_boundary(s.earliest_epoch(), smallest_user_key);
    crate::key::lemma_point_le_refl(from);
    assert(collected(s, from, from, seen)) by {
        assert forall|x: PointRangeView| from.le(x) && !from.le(x) implies #[trigger] point_delete_epoch(
            seen,
            x,
        ) == earliest_point_epoch(s, x) by {}
    }
    if stop is Some {
        lemma_point_le_total(stop->0, t);
        if stop->0.le(from) {
            lemma_point_le_trans(stop->0, from, t);
        }
    }
    lemma_collected_boundaries(s, from, from, seen, stop, largest_user_key);
    let all = with_closing_boundary(seen + s.boundaries_until(stop), s.reaches(stop), largest_user_key);
    lemma_dedup_keeps_point_epochs(all);
    lemma_same_point_epochs(v, s, t);
}

} // verus!
