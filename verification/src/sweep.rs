//! Why the events of a sweep record the tombstones they were made from.
//!
//! At any point between keys, the events answer with the smallest epoch
//! among the tombstones that cover the point, and with `MAX_EPOCH` where no
//! tombstone covers it.

use crate::active_epochs::spec_min_epoch;
use crate::delete_range::{
    lemma_epoch_at_prefix, lemma_monotonic_events_ascend, spec_active_after, spec_enters_at,
    spec_epoch_at, spec_exits_at, spec_insert_all, spec_is_boundary, spec_is_sweep_of,
    spec_keys_strictly_increasing, spec_monotonic_events, spec_raw_event, spec_remove_all,
    spec_sweep_keys, CompactionDeleteRangeEventView,
};
use crate::key::{
    lemma_compare_point_antisymmetric, lemma_compare_point_equal, lemma_compare_point_transitive,
    spec_compare_point, KeyOrder, PointRangeView, MAX_EPOCH,
};
use crate::tombstone::DeleteRangeTombstoneView;
use vstd::multiset::Multiset;
use vstd::prelude::*;

verus! {

/// Whether the tombstone covers the point: the point lies at or behind its
/// start and before its end.
pub open spec fn spec_covers(t: DeleteRangeTombstoneView, p: PointRangeView) -> bool {
    spec_compare_point(t.start_user_key, p) != KeyOrder::Greater && spec_compare_point(
        p,
        t.end_user_key,
    ) == KeyOrder::Less
}

/// The epochs of the tombstones that cover the point, each as often as a
/// tombstone of that epoch covers it.
pub open spec fn spec_active_at(ts: Seq<DeleteRangeTombstoneView>, p: PointRangeView) -> Multiset<
    u64,
>
    decreases ts.len(),
{
    if ts.len() == 0 {
        Multiset::empty()
    } else if spec_covers(ts.last(), p) {
        spec_active_at(ts.drop_last(), p).insert(ts.last().sequence)
    } else {
        spec_active_at(ts.drop_last(), p)
    }
}

/// Whether every tombstone begins before it ends.
pub open spec fn spec_tombstones_well_formed(ts: Seq<DeleteRangeTombstoneView>) -> bool {
    forall|i: int|
        0 <= i < ts.len() ==> spec_compare_point(
            (#[trigger] ts[i]).start_user_key,
            ts[i].end_user_key,
        ) == KeyOrder::Less
}

/// How many tombstones of epoch `e` satisfy `pred`.
pub open spec fn spec_count_if(
    ts: Seq<DeleteRangeTombstoneView>,
    pred: spec_fn(DeleteRangeTombstoneView) -> bool,
    e: u64,
) -> nat
    decreases ts.len(),
{
    if ts.len() == 0 {
        0
    } else {
        spec_count_if(ts.drop_last(), pred, e) + if pred(ts.last()) && ts.last().sequence == e {
            1nat
        } else {
            0nat
        }
    }
}

/// How often `e` stands in `s`.
pub open spec fn spec_occurrences(s: Seq<u64>, e: u64) -> nat
    decreases s.len(),
{
    if s.len() == 0 {
        0
    } else {
        spec_occurrences(s.drop_last(), e) + if s.last() == e {
            1nat
        } else {
            0nat
        }
    }
}

/// The tombstones that cover `p`.
pub open spec fn spec_covering(p: PointRangeView) -> spec_fn(DeleteRangeTombstoneView) -> bool {
    |t: DeleteRangeTombstoneView| spec_covers(t, p)
}

/// The tombstones that end at `key`.
pub open spec fn spec_ending(key: PointRangeView) -> spec_fn(DeleteRangeTombstoneView) -> bool {
    |t: DeleteRangeTombstoneView| t.end_user_key == key
}

/// The tombstones that begin at `key`.
pub open spec fn spec_beginning(key: PointRangeView) -> spec_fn(DeleteRangeTombstoneView) -> bool {
    |t: DeleteRangeTombstoneView| t.start_user_key == key
}

/// No tombstone.
pub open spec fn spec_none() -> spec_fn(DeleteRangeTombstoneView) -> bool {
    |t: DeleteRangeTombstoneView| false
}

/// How many keys, from the first on, lie at or before `p`, for keys that
/// ascend.
pub open spec fn spec_rank(keys: Seq<PointRangeView>, p: PointRangeView) -> nat
    decreases keys.len(),
{
    if keys.len() == 0 {
        0
    } else if spec_compare_point(keys.last(), p) != KeyOrder::Greater {
        keys.len()
    } else {
        spec_rank(keys.drop_last(), p)
    }
}

proof fn lemma_rank(keys: Seq<PointRangeView>, p: PointRangeView)
    requires
        spec_keys_strictly_increasing(keys),
    ensures
        spec_rank(keys, p) <= keys.len(),
        forall|j: int|
            0 <= j < spec_rank(keys, p) ==> spec_compare_point(#[trigger] keys[j], p)
                != KeyOrder::Greater,
        forall|j: int|
            spec_rank(keys, p) <= j < keys.len() ==> spec_compare_point(#[trigger] keys[j], p)
                == KeyOrder::Greater,
    decreases keys.len(),
{
    if keys.len() > 0 {
        if spec_compare_point(keys.last(), p) != KeyOrder::Greater {
            assert forall|j: int| 0 <= j < keys.len() implies spec_compare_point(
                #[trigger] keys[j],
                p,
            ) != KeyOrder::Greater by {
                if j < keys.len() - 1 {
                    assert(spec_compare_point(keys[j], keys[keys.len() - 1]) == KeyOrder::Less);
                    lemma_compare_point_transitive(keys[j], keys.last(), p);
                }
            }
        } else {
            let init = keys.drop_last();
            assert forall|i: int, j: int| 0 <= i < j < init.len() implies spec_compare_point(
                init[i],
                init[j],
            ) == KeyOrder::Less by {
                assert(init[i] == keys[i] && init[j] == keys[j]);
            }
            lemma_rank(init, p);
            assert forall|j: int| spec_rank(keys, p) <= j < keys.len() implies spec_compare_point(
                #[trigger] keys[j],
                p,
            ) == KeyOrder::Greater by {
                if j < keys.len() - 1 {
                    assert(init[j] == keys[j]);
                }
            }
            assert forall|j: int| 0 <= j < spec_rank(keys, p) implies spec_compare_point(
                #[trigger] keys[j],
                p,
            ) != KeyOrder::Greater by {
                assert(init[j] == keys[j]);
            }
        }
    }
}

proof fn lemma_active_count(ts: Seq<DeleteRangeTombstoneView>, p: PointRangeView, e: u64)
    ensures
        spec_active_at(ts, p).count(e) == spec_count_if(ts, spec_covering(p), e),
    decreases ts.len(),
{
    broadcast use vstd::multiset::group_multiset_axioms;

    if ts.len() > 0 {
        lemma_active_count(ts.drop_last(), p, e);
    }
}

proof fn lemma_exits_count(ts: Seq<DeleteRangeTombstoneView>, key: PointRangeView, e: u64)
    ensures
        spec_occurrences(spec_exits_at(ts, key), e) == spec_count_if(ts, spec_ending(key), e),
    decreases ts.len(),
{
    if ts.len() > 0 {
        lemma_exits_count(ts.drop_last(), key, e);
        if ts.last().end_user_key == key {
            let s = spec_exits_at(ts.drop_last(), key);
            assert(s.push(ts.last().sequence).drop_last() =~= s);
        }
    }
}

proof fn lemma_enters_count(ts: Seq<DeleteRangeTombstoneView>, key: PointRangeView, e: u64)
    ensures
        spec_occurrences(spec_enters_at(ts, key), e) == spec_count_if(ts, spec_beginning(key), e),
    decreases ts.len(),
{
    if ts.len() > 0 {
        lemma_enters_count(ts.drop_last(), key, e);
        if ts.last().start_user_key == key {
            let s = spec_enters_at(ts.drop_last(), key);
            assert(s.push(ts.last().sequence).drop_last() =~= s);
        }
    }
}

proof fn lemma_remove_all_count(m: Multiset<u64>, s: Seq<u64>, e: u64)
    ensures
        spec_remove_all(m, s).count(e) == if m.count(e) >= spec_occurrences(s, e) {
            (m.count(e) - spec_occurrences(s, e)) as nat
        } else {
            0nat
        },
    decreases s.len(),
{
    broadcast use vstd::multiset::group_multiset_axioms;

    if s.len() > 0 {
        lemma_remove_all_count(m, s.drop_last(), e);
    }
}

proof fn lemma_insert_all_count(m: Multiset<u64>, s: Seq<u64>, e: u64)
    ensures
        spec_insert_all(m, s).count(e) == m.count(e) + spec_occurrences(s, e),
    decreases s.len(),
{
    broadcast use vstd::multiset::group_multiset_axioms;

    if s.len() > 0 {
        lemma_insert_all_count(m, s.drop_last(), e);
    }
}

/// Counting by two predicates that agree on every tombstone gives the same.
proof fn lemma_count_if_agrees(
    ts: Seq<DeleteRangeTombstoneView>,
    first: spec_fn(DeleteRangeTombstoneView) -> bool,
    second: spec_fn(DeleteRangeTombstoneView) -> bool,
    e: u64,
)
    requires
        forall|i: int| 0 <= i < ts.len() ==> first(#[trigger] ts[i]) == second(ts[i]),
    ensures
        spec_count_if(ts, first, e) == spec_count_if(ts, second, e),
    decreases ts.len(),
{
    if ts.len() > 0 {
        let init = ts.drop_last();
        assert forall|i: int| 0 <= i < init.len() implies first(#[trigger] init[i]) == second(init[i]) by {
            assert(init[i] == ts[i]);
        }
        lemma_count_if_agrees(init, first, second, e);
        assert(ts.last() == ts[ts.len() - 1]);
    }
}

/// From one boundary to the next: the tombstones that cover the next are
/// those that covered the one before and do not end, and those that begin.
proof fn lemma_count_step(
    ts: Seq<DeleteRangeTombstoneView>,
    prev: spec_fn(DeleteRangeTombstoneView) -> bool,
    cur: spec_fn(DeleteRangeTombstoneView) -> bool,
    ending: spec_fn(DeleteRangeTombstoneView) -> bool,
    beginning: spec_fn(DeleteRangeTombstoneView) -> bool,
    e: u64,
)
    requires
        forall|i: int|
            0 <= i < ts.len() ==> cur(#[trigger] ts[i]) == ((prev(ts[i]) && !ending(ts[i]))
                || beginning(ts[i])),
        forall|i: int| 0 <= i < ts.len() ==> (ending(#[trigger] ts[i]) ==> prev(ts[i])),
        forall|i: int| 0 <= i < ts.len() ==> (beginning(#[trigger] ts[i]) ==> !prev(ts[i])),
    ensures
        spec_count_if(ts, cur, e) + spec_count_if(ts, ending, e) == spec_count_if(ts, prev, e)
            + spec_count_if(ts, beginning, e),
        spec_count_if(ts, ending, e) <= spec_count_if(ts, prev, e),
    decreases ts.len(),
{
    if ts.len() > 0 {
        let init = ts.drop_last();
        assert forall|i: int| 0 <= i < init.len() implies (cur(#[trigger] init[i]) == ((prev(
            init[i],
        ) && !ending(init[i])) || beginning(init[i]))) && (ending(init[i]) ==> prev(init[i])) && (
        beginning(init[i]) ==> !prev(init[i])) by {
            assert(init[i] == ts[i]);
        }
        lemma_count_step(init, prev, cur, ending, beginning, e);
        assert(ts.last() == ts[ts.len() - 1]);
    }
}

/// Where a tombstone stands among the keys of its sweep: it begins at one
/// key and ends at a later one, and covers exactly the keys from the first
/// up to, and without, the second.
proof fn lemma_tombstone_between_keys(
    ts: Seq<DeleteRangeTombstoneView>,
    events: Seq<CompactionDeleteRangeEventView>,
    i: int,
) -> (r: (int, int))
    requires
        spec_tombstones_well_formed(ts),
        spec_is_sweep_of(events, ts),
        0 <= i < ts.len(),
    ensures
        0 <= r.0 < r.1 < events.len(),
        events[r.0].event_key == ts[i].start_user_key,
        events[r.1].event_key == ts[i].end_user_key,
        forall|m: int|
            0 <= m < events.len() ==> (spec_covers(ts[i], (#[trigger] events[m]).event_key) <==> r.0
                <= m < r.1),
        forall|m: int|
            0 <= m < events.len() ==> ((#[trigger] events[m]).event_key == ts[i].start_user_key
                <==> m == r.0),
        forall|m: int|
            0 <= m < events.len() ==> ((#[trigger] events[m]).event_key == ts[i].end_user_key
                <==> m == r.1),
{
    let keys = spec_sweep_keys(events);
    let t = ts[i];
    assert(spec_is_boundary(ts, t.start_user_key));
    assert(spec_is_boundary(ts, t.end_user_key));
    assert(keys.contains(t.start_user_key));
    assert(keys.contains(t.end_user_key));
    let a = choose|a: int| 0 <= a < keys.len() && keys[a] == t.start_user_key;
    let b = choose|b: int| 0 <= b < keys.len() && keys[b] == t.end_user_key;
    assert(events[a].event_key == keys[a]);
    assert(events[b].event_key == keys[b]);
    lemma_keys_order(keys, a, b);
    assert forall|m: int| 0 <= m < events.len() implies (spec_covers(
        ts[i],
        (#[trigger] events[m]).event_key,
    ) <==> a <= m < b) && (events[m].event_key == ts[i].start_user_key <==> m == a) && (
    events[m].event_key == ts[i].end_user_key <==> m == b) by {
        assert(events[m].event_key == keys[m]);
        lemma_keys_order(keys, a, m);
        lemma_keys_order(keys, m, b);
        lemma_compare_point_equal(keys[m], keys[a]);
        lemma_compare_point_equal(keys[m], keys[b]);
    }
    (a, b)
}

/// Keys that ascend compare as their places do.
proof fn lemma_keys_order(keys: Seq<PointRangeView>, a: int, b: int)
    requires
        spec_keys_strictly_increasing(keys),
        0 <= a < keys.len(),
        0 <= b < keys.len(),
    ensures
        spec_compare_point(keys[a], keys[b]) == if a < b {
            KeyOrder::Less
        } else if a == b {
            KeyOrder::Equal
        } else {
            KeyOrder::Greater
        },
{
    lemma_compare_point_equal(keys[a], keys[b]);
    lemma_compare_point_antisymmetric(keys[b], keys[a]);
}

/// Behind each boundary of a sweep hold the tombstones that cover it.
#[verifier::rlimit(50)]
proof fn lemma_active_after_boundary(
    ts: Seq<DeleteRangeTombstoneView>,
    events: Seq<CompactionDeleteRangeEventView>,
    n: nat,
)
    requires
        spec_tombstones_well_formed(ts),
        spec_is_sweep_of(events, ts),
        1 <= n <= events.len(),
    ensures
        spec_active_after(events, n) == spec_active_at(ts, events[n - 1].event_key),
    decreases n,
{
    broadcast use vstd::multiset::group_multiset_axioms;

    let key = events[n - 1].event_key;
    let before = spec_active_after(events, (n - 1) as nat);
    let removed = spec_remove_all(before, events[n - 1].exit);
    let after = spec_active_after(events, n);
    assert(after == spec_insert_all(removed, events[n - 1].enter));
    if n > 1 {
        lemma_active_after_boundary(ts, events, (n - 1) as nat);
    }
    assert forall|e: u64| after.count(e) == spec_active_at(ts, key).count(e) by {
        lemma_insert_all_count(removed, events[n - 1].enter, e);
        lemma_remove_all_count(before, events[n - 1].exit, e);
        lemma_exits_count(ts, key, e);
        lemma_enters_count(ts, key, e);
        lemma_active_count(ts, key, e);
        let prev = if n > 1 {
            spec_covering(events[n - 2].event_key)
        } else {
            spec_none()
        };
        assert forall|i: int| 0 <= i < ts.len() implies (spec_covering(key)(#[trigger] ts[i]) == ((
        prev(ts[i]) && !spec_ending(key)(ts[i])) || spec_beginning(key)(ts[i]))) && (spec_ending(
            key,
        )(ts[i]) ==> prev(ts[i])) && (spec_beginning(key)(ts[i]) ==> !prev(ts[i])) by {
            let (a, b) = lemma_tombstone_between_keys(ts, events, i);
            assert(spec_covers(ts[i], events[n - 1].event_key) <==> a <= n - 1 < b);
            if n > 1 {
                assert(spec_covers(ts[i], events[n - 2].event_key) <==> a <= n - 2 < b);
            }
        }
        lemma_count_step(ts, prev, spec_covering(key), spec_ending(key), spec_beginning(key), e);
        if n > 1 {
            lemma_active_count(ts, events[n - 2].event_key, e);
        } else {
            lemma_count_none(ts, e);
        }
    }
    assert(after =~= spec_active_at(ts, key));
}

proof fn lemma_count_none(ts: Seq<DeleteRangeTombstoneView>, e: u64)
    ensures
        spec_count_if(ts, spec_none(), e) == 0,
    decreases ts.len(),
{
    if ts.len() > 0 {
        lemma_count_none(ts.drop_last(), e);
    }
}

/// Between two boundaries nothing changes: a point is covered by the
/// tombstones that cover the last boundary at or before it, and by none
/// where it lies before every boundary.
#[verifier::rlimit(50)]
proof fn lemma_active_between_boundaries(
    ts: Seq<DeleteRangeTombstoneView>,
    events: Seq<CompactionDeleteRangeEventView>,
    p: PointRangeView,
)
    requires
        spec_tombstones_well_formed(ts),
        spec_is_sweep_of(events, ts),
    ensures
        spec_rank(spec_sweep_keys(events), p) <= events.len(),
        spec_active_at(ts, p) == if spec_rank(spec_sweep_keys(events), p) == 0 {
            Multiset::<u64>::empty()
        } else {
            spec_active_at(ts, events[spec_rank(spec_sweep_keys(events), p) - 1].event_key)
        },
{
    broadcast use vstd::multiset::group_multiset_axioms;

    let keys = spec_sweep_keys(events);
    lemma_rank(keys, p);
    let n = spec_rank(keys, p);
    let target = if n == 0 {
        Multiset::<u64>::empty()
    } else {
        spec_active_at(ts, events[n - 1].event_key)
    };
    assert forall|e: u64| spec_active_at(ts, p).count(e) == target.count(e) by {
        lemma_active_count(ts, p, e);
        let other = if n == 0 {
            spec_none()
        } else {
            spec_covering(events[n - 1].event_key)
        };
        assert forall|i: int| 0 <= i < ts.len() implies spec_covering(p)(#[trigger] ts[i])
            == other(ts[i]) by {
            let (a, b) = lemma_tombstone_between_keys(ts, events, i);
            assert(keys[a] == events[a].event_key);
            assert(keys[b] == events[b].event_key);
            lemma_compare_point_antisymmetric(keys[b], p);
            if n > 0 {
                assert(spec_covers(ts[i], events[n - 1].event_key) <==> a <= n - 1 < b);
            }
        }
        lemma_count_if_agrees(ts, spec_covering(p), other, e);
        if n == 0 {
            lemma_count_none(ts, e);
        } else {
            lemma_active_count(ts, events[n - 1].event_key, e);
        }
    }
    assert(spec_active_at(ts, p) =~= target);
}

/// What dropping repeated events keeps: the events kept for the first `n`
/// boundaries end with the epoch of boundary `n - 1`, none of them lies
/// behind that boundary, and they stay where they are when more boundaries
/// follow.
#[verifier::rlimit(50)]
proof fn lemma_kept_events(events: Seq<CompactionDeleteRangeEventView>, n: nat, m: nat)
    requires
        spec_keys_strictly_increasing(spec_sweep_keys(events)),
        n <= m <= events.len(),
    ensures
        n >= 1 ==> spec_monotonic_events(events, n).len() >= 1 && spec_monotonic_events(
            events,
            n,
        ).last().new_epoch == spec_raw_event(events, n - 1).new_epoch,
        spec_monotonic_events(events, n).len() <= spec_monotonic_events(events, m).len(),
        forall|i: int|
            0 <= i < spec_monotonic_events(events, n).len() ==> #[trigger] spec_monotonic_events(
                events,
                m,
            )[i] == spec_monotonic_events(events, n)[i],
        forall|i: int|
            0 <= i < spec_monotonic_events(events, n).len() && n >= 1 ==> spec_compare_point(
                (#[trigger] spec_monotonic_events(events, n)[i]).event_key,
                events[n - 1].event_key,
            ) != KeyOrder::Greater,
        forall|i: int|
            spec_monotonic_events(events, n).len() <= i < spec_monotonic_events(events, m).len()
                ==> exists|j: int|
                n <= j < m && (#[trigger] spec_monotonic_events(events, m)[i]).event_key
                    == events[j].event_key,
    decreases m,
{
    if n >= 1 {
        lemma_monotonic_events_ascend(events, (n - 1) as nat);
        let kept = spec_monotonic_events(events, n);
        let before = spec_monotonic_events(events, (n - 1) as nat);
        assert forall|i: int| 0 <= i < kept.len() implies spec_compare_point(
            (#[trigger] kept[i]).event_key,
            events[n - 1].event_key,
        ) != KeyOrder::Greater by {
            if i < before.len() {
                assert(kept[i] == before[i]);
            } else {
                lemma_compare_point_equal(kept[i].event_key, events[n - 1].event_key);
            }
        }
    }
    if n < m {
        lemma_kept_events(events, n, (m - 1) as nat);
        let short = spec_monotonic_events(events, n);
        let before = spec_monotonic_events(events, (m - 1) as nat);
        let after = spec_monotonic_events(events, m);
        assert forall|i: int| short.len() <= i < after.len() implies exists|j: int|
            n <= j < m && (#[trigger] after[i]).event_key == events[j].event_key by {
            if i < before.len() {
                assert(after[i] == before[i]);
                let j = choose|j: int| n <= j < m - 1 && before[i].event_key == events[j].event_key;
                assert(n <= j < m && after[i].event_key == events[j].event_key);
            } else {
                assert(after[i].event_key == events[m - 1].event_key);
            }
        }
    }
}

/// The events of a sweep record the tombstones: at every point, the events
/// kept of a sweep answer with the smallest epoch among the tombstones that
/// cover the point, and with `MAX_EPOCH` where none covers it.
#[verifier::rlimit(50)]
pub proof fn lemma_events_record_tombstones(
    ts: Seq<DeleteRangeTombstoneView>,
    events: Seq<CompactionDeleteRangeEventView>,
    p: PointRangeView,
)
    requires
        spec_tombstones_well_formed(ts),
        spec_is_sweep_of(events, ts),
    ensures
        spec_epoch_at(spec_monotonic_events(events, events.len()), p) == spec_min_epoch(
            spec_active_at(ts, p),
        ),
{
    broadcast use vstd::multiset::group_multiset_axioms;

    let keys = spec_sweep_keys(events);
    let all = spec_monotonic_events(events, events.len());
    lemma_rank(keys, p);
    let n = spec_rank(keys, p);
    lemma_active_between_boundaries(ts, events, p);
    lemma_monotonic_events_ascend(events, events.len());
    lemma_kept_events(events, n, events.len());
    let short = spec_monotonic_events(events, n);
    let idx = short.len() as int;
    assert forall|k: int| idx <= k < all.len() implies spec_compare_point(all[k].event_key, p)
        == KeyOrder::Greater by {
        let j = choose|j: int| n <= j < events.len() && all[k].event_key == events[j].event_key;
        assert(keys[j] == events[j].event_key);
    }
    if n >= 1 {
        assert(all[idx - 1] == short[idx - 1]);
        assert(keys[n - 1] == events[n - 1].event_key);
        lemma_compare_point_transitive(short[idx - 1].event_key, events[n - 1].event_key, p);
        lemma_active_after_boundary(ts, events, n);
    }
    lemma_epoch_at_prefix(all, p, idx);
}

/// What covers a point depends on the tombstones alone, not on their order.
pub proof fn lemma_active_ignores_order(
    a: Seq<DeleteRangeTombstoneView>,
    b: Seq<DeleteRangeTombstoneView>,
    p: PointRangeView,
)
    requires
        a.to_multiset() == b.to_multiset(),
    ensures
        spec_active_at(a, p) == spec_active_at(b, p),
        spec_tombstones_well_formed(a) == spec_tombstones_well_formed(b),
{
    broadcast use vstd::multiset::group_multiset_axioms;

    a.to_multiset_ensures();
    b.to_multiset_ensures();
    assert forall|e: u64| spec_active_at(a, p).count(e) == spec_active_at(b, p).count(e) by {
        lemma_active_count(a, p, e);
        lemma_active_count(b, p, e);
        lemma_count_if_by_multiset(a, spec_covering(p), e);
        lemma_count_if_by_multiset(b, spec_covering(p), e);
    }
    assert(spec_active_at(a, p) =~= spec_active_at(b, p));
    if spec_tombstones_well_formed(a) {
        lemma_well_formed_by_multiset(a, b);
    }
    if spec_tombstones_well_formed(b) {
        lemma_well_formed_by_multiset(b, a);
    }
}

proof fn lemma_well_formed_by_multiset(
    a: Seq<DeleteRangeTombstoneView>,
    b: Seq<DeleteRangeTombstoneView>,
)
    requires
        a.to_multiset() == b.to_multiset(),
        spec_tombstones_well_formed(a),
    ensures
        spec_tombstones_well_formed(b),
{
    a.to_multiset_ensures();
    b.to_multiset_ensures();
    assert forall|i: int| 0 <= i < b.len() implies spec_compare_point(
        (#[trigger] b[i]).start_user_key,
        b[i].end_user_key,
    ) == KeyOrder::Less by {
        assert(b.contains(b[i]));
        assert(a.to_multiset().count(b[i]) > 0);
        assert(a.contains(b[i]));
        let k = choose|k: int| 0 <= k < a.len() && a[k] == b[i];
        assert(spec_compare_point(a[k].start_user_key, a[k].end_user_key) == KeyOrder::Less);
    }
}

/// The tombstones of epoch `e` that satisfy `pred`.
pub open spec fn spec_selecting(
    pred: spec_fn(DeleteRangeTombstoneView) -> bool,
    e: u64,
) -> spec_fn(DeleteRangeTombstoneView) -> bool {
    |t: DeleteRangeTombstoneView| pred(t) && t.sequence == e
}

proof fn lemma_count_if_by_multiset(
    ts: Seq<DeleteRangeTombstoneView>,
    pred: spec_fn(DeleteRangeTombstoneView) -> bool,
    e: u64,
)
    ensures
        spec_count_if(ts, pred, e) == ts.to_multiset().filter(spec_selecting(pred, e)).len(),
    decreases ts.len(),
{
    broadcast use vstd::multiset::group_multiset_axioms;

    let f = spec_selecting(pred, e);
    if ts.len() == 0 {
        crate::active_epochs::lemma_empty_to_multiset::<DeleteRangeTombstoneView>();
        assert(ts =~= Seq::empty());
        assert(ts.to_multiset().filter(f) =~= Multiset::empty());
    } else {
        let init = ts.drop_last();
        let last = ts.last();
        lemma_count_if_by_multiset(init, pred, e);
        assert(ts =~= init.push(last));
        vstd::seq_lib::to_multiset_build(init, last);
        let m = init.to_multiset();
        if f(last) {
            assert(m.insert(last).filter(f) =~= m.filter(f).insert(last));
        } else {
            assert(m.insert(last).filter(f) =~= m.filter(f));
        }
    }
}

/// Whether every tombstone begins before it ends.
pub fn tombstones_well_formed(tombstones: &Vec<crate::tombstone::DeleteRangeTombstone>) -> (r:
    bool)
    ensures
        r == spec_tombstones_well_formed(crate::delete_range::spec_tombstones_view(tombstones@)),
{
    let ghost ts = crate::delete_range::spec_tombstones_view(tombstones@);
    let mut i: usize = 0;
    while i < tombstones.len()
        invariant
            i <= tombstones@.len(),
            ts == crate::delete_range::spec_tombstones_view(tombstones@),
            forall|k: int|
                0 <= k < i ==> spec_compare_point(
                    (#[trigger] ts[k]).start_user_key,
                    ts[k].end_user_key,
                ) == KeyOrder::Less,
        decreases tombstones@.len() - i,
    {
        assert(ts[i as int] == tombstones@[i as int]@);
        if !matches!(
            tombstones[i].start_user_key.compare(&tombstones[i].end_user_key),
            KeyOrder::Less
        ) {
            return false;
        }
        i += 1;
    }
    true
}

/// Whether a tombstone with an epoch above `epoch` covers the user key:
/// whether the version of the key written at `epoch` lies under a range
/// delete that is newer than it.
pub open spec fn spec_covered_by_newer(
    ts: Seq<DeleteRangeTombstoneView>,
    key: crate::key::UserKeyView,
    epoch: u64,
) -> bool {
    exists|i: int|
        0 <= i < ts.len() && spec_covers(#[trigger] ts[i], crate::delete_range::spec_point_of(key))
            && epoch < ts[i].sequence
}

/// Whether a tombstone with an epoch above `epoch` covers `user_key`.
pub fn is_covered_by_newer_tombstone(
    tombstones: &Vec<crate::tombstone::DeleteRangeTombstone>,
    user_key: &crate::key::UserKey,
    epoch: u64,
) -> (r: bool)
    ensures
        r == spec_covered_by_newer(
            crate::delete_range::spec_tombstones_view(tombstones@),
            user_key@,
            epoch,
        ),
{
    let ghost ts = crate::delete_range::spec_tombstones_view(tombstones@);
    let point = crate::key::PointRange::from_user_key(user_key.duplicate(), false);
    let mut i: usize = 0;
    while i < tombstones.len()
        invariant
            i <= tombstones@.len(),
            ts == crate::delete_range::spec_tombstones_view(tombstones@),
            point@ == crate::delete_range::spec_point_of(user_key@),
            forall|k: int|
                0 <= k < i ==> !(spec_covers(#[trigger] ts[k], point@) && epoch < ts[k].sequence),
        decreases tombstones@.len() - i,
    {
        let t = &tombstones[i];
        assert(ts[i as int] == t@);
        if epoch < t.sequence && !matches!(t.start_user_key.compare(&point), KeyOrder::Greater)
            && matches!(point.compare(&t.end_user_key), KeyOrder::Less) {
            return true;
        }
        i += 1;
    }
    false
}

/// The smallest epoch of a multiset that is not empty belongs to it.
proof fn lemma_min_epoch_is_member(m: Multiset<u64>)
    requires
        m.len() > 0,
    ensures
        m.count(spec_min_epoch(m)) > 0,
        forall|x: u64| m.count(x) > 0 ==> spec_min_epoch(m) <= x,
    decreases m.len(),
{
    broadcast use vstd::multiset::group_multiset_axioms;

    let x = m.choose();
    assert(m.count(x) > 0);
    let rest = m.remove(x);
    if rest.len() == 0 {
        assert forall|y: u64| m.count(y) > 0 implies x <= y by {
            if y != x {
                assert(rest.count(y) > 0);
                assert(rest.len() > 0) by {
                    vstd::multiset::axiom_count_le_len(rest, y);
                }
            }
        }
        crate::active_epochs::lemma_min_epoch_is(m, x);
    } else {
        lemma_min_epoch_is_member(rest);
        let r = spec_min_epoch(rest);
        let least = if x <= r {
            x
        } else {
            r
        };
        assert forall|y: u64| m.count(y) > 0 implies least <= y by {
            if y != x {
                assert(rest.count(y) > 0);
            }
        }
        crate::active_epochs::lemma_min_epoch_is(m, least);
    }
}

/// A tombstone stands behind every epoch that holds at a point.
proof fn lemma_active_member(ts: Seq<DeleteRangeTombstoneView>, p: PointRangeView, e: u64)
    requires
        spec_active_at(ts, p).count(e) > 0,
    ensures
        exists|i: int| 0 <= i < ts.len() && spec_covers(#[trigger] ts[i], p) && ts[i].sequence == e,
    decreases ts.len(),
{
    broadcast use vstd::multiset::group_multiset_axioms;

    if ts.len() > 0 {
        if spec_covers(ts.last(), p) && ts.last().sequence == e {
            assert(ts[ts.len() - 1] == ts.last());
        } else {
            let init = ts.drop_last();
            lemma_active_member(init, p, e);
            let i = choose|i: int|
                0 <= i < init.len() && spec_covers(#[trigger] init[i], p) && init[i].sequence == e;
            assert(ts[i] == init[i]);
        }
    }
}

/// What the events say is deleted lies under a newer tombstone: a version
/// that the events of well-formed tombstones report as deleted is covered by
/// a tombstone with a larger epoch.
pub proof fn lemma_deleted_lies_under_newer_tombstone(
    ts: Seq<DeleteRangeTombstoneView>,
    events: Seq<CompactionDeleteRangeEventView>,
    key: crate::key::UserKeyView,
    epoch: u64,
)
    requires
        spec_tombstones_well_formed(ts),
        spec_is_sweep_of(events, ts),
        crate::delete_range::spec_is_deleted(
            spec_monotonic_events(events, events.len()),
            key,
            epoch,
        ),
    ensures
        spec_covered_by_newer(ts, key, epoch),
{
    broadcast use vstd::multiset::group_multiset_axioms;

    let p = crate::delete_range::spec_point_of(key);
    lemma_events_record_tombstones(ts, events, p);
    let active = spec_active_at(ts, p);
    assert(active.len() > 0);
    lemma_min_epoch_is_member(active);
    lemma_active_member(ts, p, spec_min_epoch(active));
}

} // verus!
