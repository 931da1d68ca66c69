//! From range tombstones to the events that a table file stores.
//!
//! The tombstones of a compaction task are swept in key order. At every
//! boundary some tombstones end and some begin; the epochs of those that
//! hold are kept in an ordered multiset, and the smallest of them is the
//! epoch of the event emitted at that boundary.

use crate::active_epochs::{spec_min_epoch, ActiveEpochs};
use crate::key::{
    lemma_compare_point_antisymmetric, lemma_compare_point_equal, lemma_compare_point_transitive,
    spec_compare_point, HummockEpoch, KeyOrder, PointRange, PointRangeView, UserKey, MAX_EPOCH,
};
use crate::active_epochs::lemma_insert_to_multiset;
use crate::key::UserKeyView;
use crate::sweep::{
    lemma_active_ignores_order, lemma_events_record_tombstones, spec_active_at,
    spec_tombstones_well_formed,
};
use crate::tombstone::{
    lemma_compare_tombstone_antisymmetric, lemma_compare_tombstone_transitive,
    spec_compare_tombstone, DeleteRangeTombstone, DeleteRangeTombstoneView, MonotonicDeleteEvent,
    MonotonicDeleteEventView,
};
use vstd::multiset::Multiset;
use vstd::prelude::*;

verus! {

/// What happens at one boundary of the sweep: the epochs of the tombstones
/// that end there, and of those that begin there.
#[derive(Clone, Debug, PartialEq, Eq)]
pub struct CompactionDeleteRangeEvent {
    pub event_key: PointRange,
    pub exit: Vec<HummockEpoch>,
    pub enter: Vec<HummockEpoch>,
}

/// What a `CompactionDeleteRangeEvent` holds, as plain values.
pub struct CompactionDeleteRangeEventView {
    pub event_key: PointRangeView,
    pub exit: Seq<u64>,
    pub enter: Seq<u64>,
}

impl View for CompactionDeleteRangeEvent {
    type V = CompactionDeleteRangeEventView;

    open spec fn view(&self) -> CompactionDeleteRangeEventView {
        CompactionDeleteRangeEventView {
            event_key: self.event_key@,
            exit: self.exit@,
            enter: self.enter@,
        }
    }
}

/// The views of a vector of sweep events.
pub open spec fn spec_sweep_events_view(v: Seq<CompactionDeleteRangeEvent>) -> Seq<
    CompactionDeleteRangeEventView,
> {
    Seq::new(v.len(), |i: int| v[i]@)
}

/// The views of a vector of tombstones.
pub open spec fn spec_tombstones_view(v: Seq<DeleteRangeTombstone>) -> Seq<
    DeleteRangeTombstoneView,
> {
    Seq::new(v.len(), |i: int| v[i]@)
}

/// The views of a vector of events.
pub open spec fn spec_monotonic_events_view(v: Seq<MonotonicDeleteEvent>) -> Seq<
    MonotonicDeleteEventView,
> {
    Seq::new(v.len(), |i: int| v[i]@)
}

/// `m` without one occurrence of each epoch of `s`, as far as `m` holds it.
pub open spec fn spec_remove_all(m: Multiset<u64>, s: Seq<u64>) -> Multiset<u64>
    decreases s.len(),
{
    if s.len() == 0 {
        m
    } else {
        spec_remove_all(m, s.drop_last()).remove(s.last())
    }
}

/// `m` with one more occurrence of each epoch of `s`.
pub open spec fn spec_insert_all(m: Multiset<u64>, s: Seq<u64>) -> Multiset<u64>
    decreases s.len(),
{
    if s.len() == 0 {
        m
    } else {
        spec_insert_all(m, s.drop_last()).insert(s.last())
    }
}

/// The epochs that hold behind a boundary, given those that held before it:
/// first the ending tombstones leave, then the beginning ones enter.
pub open spec fn spec_apply_event(
    m: Multiset<u64>,
    e: CompactionDeleteRangeEventView,
) -> Multiset<u64> {
    spec_insert_all(spec_remove_all(m, e.exit), e.enter)
}

/// The epochs that hold behind the first `n` boundaries.
pub open spec fn spec_active_after(events: Seq<CompactionDeleteRangeEventView>, n: nat) -> Multiset<
    u64,
>
    decreases n,
{
    if n == 0 {
        Multiset::empty()
    } else {
        spec_apply_event(spec_active_after(events, (n - 1) as nat), events[n - 1])
    }
}

/// The event emitted at boundary `i`: the smallest epoch that holds behind
/// it, or `MAX_EPOCH` where none does.
pub open spec fn spec_raw_event(
    events: Seq<CompactionDeleteRangeEventView>,
    i: int,
) -> MonotonicDeleteEventView {
    MonotonicDeleteEventView {
        event_key: events[i].event_key,
        new_epoch: spec_min_epoch(spec_active_after(events, (i + 1) as nat)),
    }
}

/// Whether two events repeat each other: same table, same epoch.
pub open spec fn spec_same_bucket(a: MonotonicDeleteEventView, b: MonotonicDeleteEventView) -> bool {
    a.event_key.left_user_key.table_id == b.event_key.left_user_key.table_id && a.new_epoch
        == b.new_epoch
}

/// The events of the first `n` boundaries, without those that repeat the
/// event kept last.
pub open spec fn spec_monotonic_events(
    events: Seq<CompactionDeleteRangeEventView>,
    n: nat,
) -> Seq<MonotonicDeleteEventView>
    decreases n,
{
    if n == 0 {
        Seq::empty()
    } else {
        let kept = spec_monotonic_events(events, (n - 1) as nat);
        let next = spec_raw_event(events, n - 1);
        if kept.len() > 0 && spec_same_bucket(kept.last(), next) {
            kept
        } else {
            kept.push(next)
        }
    }
}

/// Events emitted for ascending boundaries ascend too: every event kept for
/// the first `n` boundaries lies before every later boundary, and the events
/// kept ascend by key, no two of them equal.
pub proof fn lemma_monotonic_events_ascend(events: Seq<CompactionDeleteRangeEventView>, n: nat)
    requires
        spec_keys_strictly_increasing(spec_sweep_keys(events)),
        n <= events.len(),
    ensures
        spec_keys_strictly_increasing(spec_event_keys(spec_monotonic_events(events, n))),
        forall|i: int, m: int|
            0 <= i < spec_monotonic_events(events, n).len() && n <= m < events.len()
                ==> spec_compare_point(
                (#[trigger] spec_monotonic_events(events, n)[i]).event_key,
                (#[trigger] events[m]).event_key,
            ) == KeyOrder::Less,
    decreases n,
{
    if n > 0 {
        lemma_monotonic_events_ascend(events, (n - 1) as nat);
        let before = spec_monotonic_events(events, (n - 1) as nat);
        let kept = spec_monotonic_events(events, n);
        let keys = spec_sweep_keys(events);
        assert forall|i: int, m: int|
            0 <= i < kept.len() && n <= m < events.len() implies spec_compare_point(
            (#[trigger] kept[i]).event_key,
            (#[trigger] events[m]).event_key,
        ) == KeyOrder::Less by {
            if i < before.len() {
                assert(kept[i] == before[i]);
            } else {
                assert(kept[i].event_key == keys[n - 1]);
                assert(events[m].event_key == keys[m]);
            }
        }
        assert forall|i: int, j: int| 0 <= i < j < kept.len() implies spec_compare_point(
            spec_event_keys(kept)[i],
            spec_event_keys(kept)[j],
        ) == KeyOrder::Less by {
            if j < before.len() {
                assert(spec_event_keys(before)[i] == before[i].event_key);
                assert(spec_event_keys(before)[j] == before[j].event_key);
            } else {
                assert(kept[i] == before[i]);
                assert(kept[j].event_key == events[n - 1].event_key);
            }
        }
    }
}

/// No event repeats the one before it: of the events kept, no two that
/// follow each other have the same table and the same epoch.
pub proof fn lemma_monotonic_events_deduplicated(
    events: Seq<CompactionDeleteRangeEventView>,
    n: nat,
    i: int,
)
    requires
        0 <= i,
        i + 1 < spec_monotonic_events(events, n).len(),
    ensures
        !spec_same_bucket(
            spec_monotonic_events(events, n)[i],
            spec_monotonic_events(events, n)[i + 1],
        ),
    decreases n,
{
    if n > 0 {
        let before = spec_monotonic_events(events, (n - 1) as nat);
        if i + 1 < before.len() {
            lemma_monotonic_events_deduplicated(events, (n - 1) as nat, i);
        }
    }
}

/// Applies one boundary of the sweep to the epochs that hold.
pub fn apply_event(epochs: &mut ActiveEpochs, event: &CompactionDeleteRangeEvent)
    requires
        old(epochs).wf(),
    ensures
        final(epochs).wf(),
        final(epochs)@ == spec_apply_event(old(epochs)@, event@),
{
    let mut i: usize = 0;
    while i < event.exit.len()
        invariant
            i <= event.exit@.len(),
            epochs.wf(),
            epochs@ == spec_remove_all(old(epochs)@, event.exit@.subrange(0, i as int)),
        decreases event.exit@.len() - i,
    {
        epochs.remove(event.exit[i]);
        proof {
            assert(event.exit@.subrange(0, i + 1).drop_last() =~= event.exit@.subrange(
                0,
                i as int,
            ));
        }
        i += 1;
    }
    assert(event.exit@.subrange(0, i as int) =~= event.exit@);
    let ghost removed = epochs@;
    let mut j: usize = 0;
    while j < event.enter.len()
        invariant
            j <= event.enter@.len(),
            epochs.wf(),
            epochs@ == spec_insert_all(removed, event.enter@.subrange(0, j as int)),
        decreases event.enter@.len() - j,
    {
        epochs.insert(event.enter[j]);
        proof {
            assert(event.enter@.subrange(0, j + 1).drop_last() =~= event.enter@.subrange(
                0,
                j as int,
            ));
        }
        j += 1;
    }
    assert(event.enter@.subrange(0, j as int) =~= event.enter@);
}

/// Sweeps the boundaries in the order given and emits, at each, the
/// smallest epoch that holds behind it (`MAX_EPOCH` where none does); an
/// event that repeats the table and the epoch of the event kept last is
/// dropped.
pub fn create_monotonic_events_from_compaction_delete_events(
    compaction_delete_range_events: Vec<CompactionDeleteRangeEvent>,
) -> (r: Vec<MonotonicDeleteEvent>)
    ensures
        spec_monotonic_events_view(r@) == spec_monotonic_events(
            spec_sweep_events_view(compaction_delete_range_events@),
            compaction_delete_range_events@.len(),
        ),
        spec_keys_strictly_increasing(
            spec_sweep_keys(spec_sweep_events_view(compaction_delete_range_events@)),
        ) ==> spec_keys_strictly_increasing(spec_event_keys(spec_monotonic_events_view(r@))),
{
    let ghost events = spec_sweep_events_view(compaction_delete_range_events@);
    proof {
        if spec_keys_strictly_increasing(spec_sweep_keys(events)) {
            lemma_monotonic_events_ascend(events, events.len());
        }
    }
    let mut epochs = ActiveEpochs::new();
    let mut monotonic_tombstone_events: Vec<MonotonicDeleteEvent> = Vec::new();
    let mut i: usize = 0;
    while i < compaction_delete_range_events.len()
        invariant
            i <= compaction_delete_range_events@.len(),
            events == spec_sweep_events_view(compaction_delete_range_events@),
            epochs.wf(),
            epochs@ == spec_active_after(events, i as nat),
            spec_monotonic_events_view(monotonic_tombstone_events@) == spec_monotonic_events(
                events,
                i as nat,
            ),
        decreases compaction_delete_range_events@.len() - i,
    {
        let event = &compaction_delete_range_events[i];
        apply_event(&mut epochs, event);
        let new_epoch = epochs.min_epoch();
        let ghost kept = spec_monotonic_events_view(monotonic_tombstone_events@);
        let n = monotonic_tombstone_events.len();
        let repeats = n > 0 && monotonic_tombstone_events[n - 1].event_key.left_user_key.table_id.table_id
            == event.event_key.left_user_key.table_id.table_id && monotonic_tombstone_events[n
            - 1].new_epoch == new_epoch;
        proof {
            if n > 0 {
                assert(kept.last() == monotonic_tombstone_events@[n - 1]@);
            }
        }
        if !repeats {
            let next = MonotonicDeleteEvent { event_key: event.event_key.duplicate(), new_epoch };
            monotonic_tombstone_events.push(next);
            assert(spec_monotonic_events_view(monotonic_tombstone_events@) =~= kept.push(
                spec_raw_event(events, i as int),
            ));
        }
        i += 1;
    }
    monotonic_tombstone_events
}

/// Whether the tombstones stand in their order: by start, then by end, then
/// by epoch with the newer one first.
pub open spec fn spec_tombstones_sorted(ts: Seq<DeleteRangeTombstoneView>) -> bool {
    forall|i: int, j: int|
        0 <= i < j < ts.len() ==> spec_compare_tombstone(ts[i], ts[j]) != KeyOrder::Greater
}

/// Sorts the tombstones: by start, then by end, then by epoch with the newer
/// one first.
#[verifier::rlimit(50)]
pub fn sort_tombstones(tombstones: &Vec<DeleteRangeTombstone>) -> (r: Vec<DeleteRangeTombstone>)
    ensures
        spec_tombstones_sorted(spec_tombstones_view(r@)),
        spec_tombstones_view(r@).to_multiset() == spec_tombstones_view(tombstones@).to_multiset(),
{
    let ghost input = spec_tombstones_view(tombstones@);
    let mut out: Vec<DeleteRangeTombstone> = Vec::new();
    let mut i: usize = 0;
    proof {
        assert(input.subrange(0, 0) =~= spec_tombstones_view(out@));
    }
    while i < tombstones.len()
        invariant
            i <= tombstones@.len(),
            input == spec_tombstones_view(tombstones@),
            spec_tombstones_sorted(spec_tombstones_view(out@)),
            spec_tombstones_view(out@).to_multiset() == input.subrange(0, i as int).to_multiset(),
        decreases tombstones@.len() - i,
    {
        let x = tombstones[i].duplicate();
        let ghost before = spec_tombstones_view(out@);
        let mut p: usize = 0;
        while p < out.len() && !matches!(out[p].compare(&x), KeyOrder::Greater)
            invariant
                p <= out@.len(),
                before == spec_tombstones_view(out@),
                forall|k: int|
                    0 <= k < p ==> spec_compare_tombstone(before[k], x@) != KeyOrder::Greater,
            decreases out@.len() - p,
        {
            p += 1;
        }
        out.insert(p, x);
        proof {
            let after = spec_tombstones_view(out@);
            assert(after =~= before.insert(p as int, x@));
            lemma_insert_to_multiset(before, p as int, x@);
            assert(input.subrange(0, i + 1) =~= input.subrange(0, i as int).push(x@));
            vstd::seq_lib::to_multiset_build(input.subrange(0, i as int), x@);
            assert forall|a: int, b: int| 0 <= a < b < after.len() implies spec_compare_tombstone(
                after[a],
                after[b],
            ) != KeyOrder::Greater by {
                if a == p {
                    lemma_compare_tombstone_antisymmetric(before[p as int], x@);
                    if b - 1 > p {
                        lemma_compare_tombstone_transitive(x@, before[p as int], before[b - 1]);
                    }
                } else if b == p {
                } else {
                    let a0 = if a < p { a } else { a - 1 };
                    let b0 = if b < p { b } else { b - 1 };
                    assert(after[a] == before[a0]);
                    assert(after[b] == before[b0]);
                }
            }
        }
        i += 1;
    }
    assert(input.subrange(0, i as int) =~= input);
    out
}

/// The epochs of the tombstones of `ts` that end at `key`, in the order of
/// `ts`.
pub open spec fn spec_exits_at(ts: Seq<DeleteRangeTombstoneView>, key: PointRangeView) -> Seq<u64>
    decreases ts.len(),
{
    if ts.len() == 0 {
        Seq::empty()
    } else if ts.last().end_user_key == key {
        spec_exits_at(ts.drop_last(), key).push(ts.last().sequence)
    } else {
        spec_exits_at(ts.drop_last(), key)
    }
}

/// The epochs of the tombstones of `ts` that begin at `key`, in the order of
/// `ts`.
pub open spec fn spec_enters_at(ts: Seq<DeleteRangeTombstoneView>, key: PointRangeView) -> Seq<u64>
    decreases ts.len(),
{
    if ts.len() == 0 {
        Seq::empty()
    } else if ts.last().start_user_key == key {
        spec_enters_at(ts.drop_last(), key).push(ts.last().sequence)
    } else {
        spec_enters_at(ts.drop_last(), key)
    }
}

/// Whether some tombstone of `ts` begins or ends at `key`.
pub open spec fn spec_is_boundary(ts: Seq<DeleteRangeTombstoneView>, key: PointRangeView) -> bool {
    exists|i: int|
        0 <= i < ts.len() && ((#[trigger] ts[i]).start_user_key == key || ts[i].end_user_key
            == key)
}

/// Whether the keys ascend, no two of them equal.
pub open spec fn spec_keys_strictly_increasing(keys: Seq<PointRangeView>) -> bool {
    forall|i: int, j: int|
        0 <= i < j < keys.len() ==> spec_compare_point(keys[i], keys[j]) == KeyOrder::Less
}

/// The keys of the sweep events.
pub open spec fn spec_sweep_keys(events: Seq<CompactionDeleteRangeEventView>) -> Seq<
    PointRangeView,
> {
    Seq::new(events.len(), |i: int| events[i].event_key)
}

/// Whether `events` are the sweep events of `ts`: one for every boundary of
/// `ts` and for nothing else, in key order, each with the epochs of the
/// tombstones that end there and of those that begin there.
pub open spec fn spec_is_sweep_of(
    events: Seq<CompactionDeleteRangeEventView>,
    ts: Seq<DeleteRangeTombstoneView>,
) -> bool {
    &&& spec_keys_strictly_increasing(spec_sweep_keys(events))
    &&& forall|i: int| 0 <= i < events.len() ==> spec_is_boundary(ts, (#[trigger] events[i]).event_key)
    &&& forall|key: PointRangeView| #[trigger]
        spec_is_boundary(ts, key) ==> spec_sweep_keys(events).contains(key)
    &&& forall|i: int|
        0 <= i < events.len() ==> (#[trigger] events[i]).exit == spec_exits_at(
            ts,
            events[i].event_key,
        ) && events[i].enter == spec_enters_at(ts, events[i].event_key)
}

/// The views of a vector of boundaries.
pub open spec fn spec_points_view(v: Seq<PointRange>) -> Seq<PointRangeView> {
    Seq::new(v.len(), |i: int| v[i]@)
}

/// Puts `key` into the ascending vector `keys`, unless it is there already.
#[verifier::rlimit(50)]
fn insert_boundary(keys: &mut Vec<PointRange>, key: &PointRange)
    requires
        spec_keys_strictly_increasing(spec_points_view(old(keys)@)),
    ensures
        spec_keys_strictly_increasing(spec_points_view(final(keys)@)),
        forall|k: PointRangeView|
            spec_points_view(final(keys)@).contains(k) <==> (k == key@ || spec_points_view(
                old(keys)@,
            ).contains(k)),
{
    let ghost before = spec_points_view(keys@);
    let mut p: usize = 0;
    while p < keys.len() && matches!(keys[p].compare(key), KeyOrder::Less)
        invariant
            p <= keys@.len(),
            before == spec_points_view(keys@),
            forall|k: int| 0 <= k < p ==> spec_compare_point(before[k], key@) == KeyOrder::Less,
        decreases keys@.len() - p,
    {
        p += 1;
    }
    if p < keys.len() && matches!(keys[p].compare(key), KeyOrder::Equal) {
        proof {
            lemma_compare_point_equal(before[p as int], key@);
            assert(before.contains(key@));
        }
        return ;
    }
    keys.insert(p, key.duplicate());
    proof {
        let after = spec_points_view(keys@);
        assert(after =~= before.insert(p as int, key@));
        assert forall|a: int, b: int| 0 <= a < b < after.len() implies spec_compare_point(
            after[a],
            after[b],
        ) == KeyOrder::Less by {
            if a == p {
                lemma_compare_point_antisymmetric(before[p as int], key@);
                if b - 1 > p {
                    lemma_compare_point_transitive(key@, before[p as int], before[b - 1]);
                }
            } else if b == p {
            } else {
                let a0 = if a < p { a } else { a - 1 };
                let b0 = if b < p { b } else { b - 1 };
                assert(after[a] == before[a0]);
                assert(after[b] == before[b0]);
            }
        }
        assert forall|k: PointRangeView| after.contains(k) <==> (k == key@ || before.contains(
            k,
        )) by {
            if after.contains(k) {
                let a = choose|a: int| 0 <= a < after.len() && after[a] == k;
                if a != p {
                    let a0 = if a < p { a } else { a - 1 };
                    assert(before[a0] == k);
                }
            }
            if k == key@ {
                assert(after[p as int] == k);
            }
            if before.contains(k) {
                let a0 = choose|a0: int| 0 <= a0 < before.len() && before[a0] == k;
                let a = if a0 < p { a0 } else { a0 + 1 };
                assert(after[a] == k);
            }
        }
    }
}

/// The epochs of the tombstones that end at `key`, and of those that begin
/// there.
fn epochs_at(tombstones: &Vec<DeleteRangeTombstone>, key: &PointRange) -> (r: (
    Vec<HummockEpoch>,
    Vec<HummockEpoch>,
))
    ensures
        r.0@ == spec_exits_at(spec_tombstones_view(tombstones@), key@),
        r.1@ == spec_enters_at(spec_tombstones_view(tombstones@), key@),
{
    let ghost ts = spec_tombstones_view(tombstones@);
    let mut exit: Vec<HummockEpoch> = Vec::new();
    let mut enter: Vec<HummockEpoch> = Vec::new();
    let mut i: usize = 0;
    proof {
        assert(ts.subrange(0, 0) =~= Seq::empty());
    }
    while i < tombstones.len()
        invariant
            i <= tombstones@.len(),
            ts == spec_tombstones_view(tombstones@),
            exit@ == spec_exits_at(ts.subrange(0, i as int), key@),
            enter@ == spec_enters_at(ts.subrange(0, i as int), key@),
        decreases tombstones@.len() - i,
    {
        proof {
            assert(ts.subrange(0, i + 1).drop_last() =~= ts.subrange(0, i as int));
            lemma_compare_point_equal(ts[i as int].end_user_key, key@);
            lemma_compare_point_equal(ts[i as int].start_user_key, key@);
        }
        if matches!(tombstones[i].end_user_key.compare(key), KeyOrder::Equal) {
            exit.push(tombstones[i].sequence);
        }
        if matches!(tombstones[i].start_user_key.compare(key), KeyOrder::Equal) {
            enter.push(tombstones[i].sequence);
        }
        i += 1;
    }
    assert(ts.subrange(0, i as int) =~= ts);
    (exit, enter)
}

/// The sweep events of the tombstones: one for every key at which a
/// tombstone begins or ends, in key order, with the epochs of the tombstones
/// that end there and of those that begin there.
#[verifier::rlimit(50)]
pub fn build_events(delete_tombstones: &Vec<DeleteRangeTombstone>) -> (r: Vec<
    CompactionDeleteRangeEvent,
>)
    ensures
        spec_is_sweep_of(spec_sweep_events_view(r@), spec_tombstones_view(delete_tombstones@)),
{
    let ghost ts = spec_tombstones_view(delete_tombstones@);
    let mut keys: Vec<PointRange> = Vec::new();
    let mut i: usize = 0;
    while i < delete_tombstones.len()
        invariant
            i <= delete_tombstones@.len(),
            ts == spec_tombstones_view(delete_tombstones@),
            spec_keys_strictly_increasing(spec_points_view(keys@)),
            forall|k: PointRangeView|
                spec_points_view(keys@).contains(k) <==> spec_is_boundary(
                    ts.subrange(0, i as int),
                    k,
                ),
        decreases delete_tombstones@.len() - i,
    {
        let ghost keys0 = spec_points_view(keys@);
        insert_boundary(&mut keys, &delete_tombstones[i].start_user_key);
        insert_boundary(&mut keys, &delete_tombstones[i].end_user_key);
        proof {
            let prev = ts.subrange(0, i as int);
            let next = ts.subrange(0, i + 1);
            assert forall|k: PointRangeView| spec_points_view(keys@).contains(k)
                <==> spec_is_boundary(next, k) by {
                if spec_is_boundary(next, k) {
                    let a = choose|a: int|
                        0 <= a < next.len() && ((#[trigger] next[a]).start_user_key == k
                            || next[a].end_user_key == k);
                    if a < i {
                        assert(prev[a] == next[a]);
                        assert(spec_is_boundary(prev, k));
                    }
                }
                if keys0.contains(k) {
                    let a = choose|a: int|
                        0 <= a < prev.len() && ((#[trigger] prev[a]).start_user_key == k
                            || prev[a].end_user_key == k);
                    assert(next[a] == prev[a]);
                }
                if k == ts[i as int].start_user_key || k == ts[i as int].end_user_key {
                    assert(next[i as int] == ts[i as int]);
                }
            }
        }
        i += 1;
    }
    assert(ts.subrange(0, i as int) =~= ts);
    let mut result: Vec<CompactionDeleteRangeEvent> = Vec::new();
    let mut j: usize = 0;
    while j < keys.len()
        invariant
            j <= keys@.len(),
            ts == spec_tombstones_view(delete_tombstones@),
            result@.len() == j,
            forall|k: int|
                0 <= k < j ==> (#[trigger] result@[k])@ == (CompactionDeleteRangeEventView {
                    event_key: keys@[k]@,
                    exit: spec_exits_at(ts, keys@[k]@),
                    enter: spec_enters_at(ts, keys@[k]@),
                }),
        decreases keys@.len() - j,
    {
        let (exit, enter) = epochs_at(delete_tombstones, &keys[j]);
        result.push(CompactionDeleteRangeEvent { event_key: keys[j].duplicate(), exit, enter });
        j += 1;
    }
    proof {
        let events = spec_sweep_events_view(result@);
        let ks = spec_points_view(keys@);
        assert(spec_sweep_keys(events) =~= ks) by {
            assert forall|k: int| 0 <= k < events.len() implies spec_sweep_keys(events)[k]
                == ks[k] by {
                assert(events[k] == result@[k]@);
            }
        }
        assert forall|k: int| 0 <= k < events.len() implies spec_is_boundary(
            ts,
            (#[trigger] events[k]).event_key,
        ) && events[k].exit == spec_exits_at(ts, events[k].event_key) && events[k].enter
            == spec_enters_at(ts, events[k].event_key) by {
            assert(events[k] == result@[k]@);
            assert(ks[k] == keys@[k]@);
            assert(ks.contains(ks[k]));
        }
    }
    result
}

/// The events that a table file stores for the tombstones: the tombstones
/// are put in order and swept, and events that repeat the one before them
/// are dropped.
///
/// Where every tombstone begins before it ends, the events answer at every
/// point with the smallest epoch among the tombstones that cover the point,
/// and with `MAX_EPOCH` where none covers it.
pub fn create_monotonic_events(delete_range_tombstones: Vec<DeleteRangeTombstone>) -> (r: Vec<
    MonotonicDeleteEvent,
>)
    ensures
        exists|sorted: Seq<DeleteRangeTombstoneView>, events: Seq<CompactionDeleteRangeEventView>|
            {
                &&& spec_tombstones_sorted(sorted)
                &&& sorted.to_multiset() == spec_tombstones_view(
                    delete_range_tombstones@,
                ).to_multiset()
                &&& spec_is_sweep_of(events, sorted)
                &&& spec_monotonic_events_view(r@) == spec_monotonic_events(events, events.len())
            },
        spec_keys_strictly_increasing(spec_event_keys(spec_monotonic_events_view(r@))),
        spec_tombstones_well_formed(spec_tombstones_view(delete_range_tombstones@)) ==> forall|
            p: PointRangeView,
        |
            #[trigger] spec_epoch_at(spec_monotonic_events_view(r@), p) == spec_min_epoch(
                spec_active_at(spec_tombstones_view(delete_range_tombstones@), p),
            ),
{
    let sorted = sort_tombstones(&delete_range_tombstones);
    let events = build_events(&sorted);
    let ghost sorted_view = spec_tombstones_view(sorted@);
    let ghost events_view = spec_sweep_events_view(events@);
    let r = create_monotonic_events_from_compaction_delete_events(events);
    proof {
        assert(spec_tombstones_sorted(sorted_view) && sorted_view.to_multiset()
            == spec_tombstones_view(delete_range_tombstones@).to_multiset() && spec_is_sweep_of(
            events_view,
            sorted_view,
        ) && spec_monotonic_events_view(r@) == spec_monotonic_events(
            events_view,
            events_view.len(),
        ));
        let input_view = spec_tombstones_view(delete_range_tombstones@);
        if spec_tombstones_well_formed(input_view) {
            assert forall|p: PointRangeView| #[trigger]
                spec_epoch_at(spec_monotonic_events_view(r@), p) == spec_min_epoch(
                    spec_active_at(input_view, p),
                ) by {
                lemma_active_ignores_order(sorted_view, input_view, p);
                lemma_events_record_tombstones(sorted_view, events_view, p);
            }
        }
    }
    r
}

/// The boundary just before a user key: where a lookup of that key stands.
pub open spec fn spec_point_of(key: UserKeyView) -> PointRangeView {
    PointRangeView { left_user_key: key, is_exclude_left_key: false }
}

/// The keys of the events.
pub open spec fn spec_event_keys(events: Seq<MonotonicDeleteEventView>) -> Seq<PointRangeView> {
    Seq::new(events.len(), |i: int| events[i].event_key)
}

/// The epoch of the range delete that holds at `point`: that of the last
/// event whose key is not behind `point`, or `MAX_EPOCH` where every event
/// lies behind it.
pub open spec fn spec_epoch_at(events: Seq<MonotonicDeleteEventView>, point: PointRangeView) -> u64
    decreases events.len(),
{
    if events.len() == 0 {
        MAX_EPOCH
    } else if spec_compare_point(events.last().event_key, point) != KeyOrder::Greater {
        events.last().new_epoch
    } else {
        spec_epoch_at(events.drop_last(), point)
    }
}

/// Whether the version of `key` written at `epoch` is deleted by the range
/// deletes that `events` record: a range delete holds at the key, and the
/// version is older than the oldest that holds there. This is what a list
/// of events can tell; a version between two range deletes over one range
/// is found by asking the range deletes themselves, as a compaction does.
pub open spec fn spec_is_deleted(
    events: Seq<MonotonicDeleteEventView>,
    key: UserKeyView,
    epoch: u64,
) -> bool {
    let delete_epoch = spec_epoch_at(events, spec_point_of(key));
    delete_epoch != MAX_EPOCH && epoch < delete_epoch
}

/// In an ascending list, what holds at a point is decided by the events
/// before the first one that lies behind the point.
pub proof fn lemma_epoch_at_prefix(events: Seq<MonotonicDeleteEventView>, point: PointRangeView, idx: int)
    requires
        spec_keys_strictly_increasing(spec_event_keys(events)),
        0 <= idx <= events.len(),
        forall|k: int|
            idx <= k < events.len() ==> spec_compare_point(events[k].event_key, point)
                == KeyOrder::Greater,
        idx > 0 ==> spec_compare_point(events[idx - 1].event_key, point) != KeyOrder::Greater,
    ensures
        spec_epoch_at(events, point) == if idx == 0 {
            MAX_EPOCH
        } else {
            events[idx - 1].new_epoch
        },
    decreases events.len(),
{
    if events.len() > idx {
        let init = events.drop_last();
        assert forall|i: int, j: int| 0 <= i < j < init.len() implies spec_compare_point(
            spec_event_keys(init)[i],
            spec_event_keys(init)[j],
        ) == KeyOrder::Less by {
            assert(spec_event_keys(events)[i] == events[i].event_key);
            assert(spec_event_keys(events)[j] == events[j].event_key);
        }
        lemma_epoch_at_prefix(init, point, idx);
    }
}

/// The epoch of the range delete that holds at `query_user_key`, or
/// `MAX_EPOCH` where none holds. The events must ascend by key, as those of
/// a table file do.
pub fn get_min_delete_range_epoch(
    events: &Vec<MonotonicDeleteEvent>,
    query_user_key: &UserKey,
) -> (r: HummockEpoch)
    requires
        spec_keys_strictly_increasing(spec_event_keys(spec_monotonic_events_view(events@))),
    ensures
        r == spec_epoch_at(spec_monotonic_events_view(events@), spec_point_of(query_user_key@)),
{
    let ghost evs = spec_monotonic_events_view(events@);
    let ghost keys = spec_event_keys(evs);
    let query_extended_user_key = PointRange::from_user_key(query_user_key.duplicate(), false);
    let ghost point = query_extended_user_key@;
    let mut lo: usize = 0;
    let mut hi: usize = events.len();
    while lo < hi
        invariant
            lo <= hi <= events@.len(),
            evs == spec_monotonic_events_view(events@),
            keys == spec_event_keys(evs),
            point == query_extended_user_key@,
            spec_keys_strictly_increasing(keys),
            forall|k: int| 0 <= k < lo ==> spec_compare_point(evs[k].event_key, point)
                != KeyOrder::Greater,
            forall|k: int|
                hi <= k < evs.len() ==> spec_compare_point(evs[k].event_key, point)
                    == KeyOrder::Greater,
        decreases hi - lo,
    {
        let mid = lo + (hi - lo) / 2;
        assert(evs[mid as int] == events@[mid as int]@);
        if matches!(events[mid].event_key.compare(&query_extended_user_key), KeyOrder::Greater) {
            proof {
                assert forall|k: int| mid <= k < evs.len() implies spec_compare_point(
                    evs[k].event_key,
                    point,
                ) == KeyOrder::Greater by {
                    if k > mid {
                        assert(spec_compare_point(keys[mid as int], keys[k]) == KeyOrder::Less);
                        lemma_compare_point_antisymmetric(evs[k].event_key, point);
                        lemma_compare_point_antisymmetric(evs[mid as int].event_key, point);
                        if spec_compare_point(evs[k].event_key, point) != KeyOrder::Greater {
                            lemma_compare_point_transitive(
                                evs[mid as int].event_key,
                                evs[k].event_key,
                                point,
                            );
                        }
                    }
                }
            }
            hi = mid;
        } else {
            proof {
                assert forall|k: int| 0 <= k < mid + 1 implies spec_compare_point(
                    evs[k].event_key,
                    point,
                ) != KeyOrder::Greater by {
                    if k < mid {
                        assert(spec_compare_point(keys[k], keys[mid as int]) == KeyOrder::Less);
                        lemma_compare_point_transitive(
                            evs[k].event_key,
                            evs[mid as int].event_key,
                            point,
                        );
                    }
                }
            }
            lo = mid + 1;
        }
    }
    proof {
        lemma_epoch_at_prefix(evs, point, lo as int);
    }
    if lo == 0 {
        MAX_EPOCH
    } else {
        assert(evs[lo - 1] == events@[lo - 1]@);
        events[lo - 1].new_epoch
    }
}

/// Whether the version of `user_key` written at `epoch` is deleted by the
/// range deletes that `events` record. The events must ascend by key.
pub fn is_deleted(events: &Vec<MonotonicDeleteEvent>, user_key: &UserKey, epoch: HummockEpoch) -> (r:
    bool)
    requires
        spec_keys_strictly_increasing(spec_event_keys(spec_monotonic_events_view(events@))),
    ensures
        r == spec_is_deleted(spec_monotonic_events_view(events@), user_key@, epoch),
{
    let delete_epoch = get_min_delete_range_epoch(events, user_key);
    delete_epoch != MAX_EPOCH && epoch < delete_epoch
}

/// Whether the events ascend by key, no two of them at the same key: what
/// looking up a key relies on.
pub fn events_ascend(events: &Vec<MonotonicDeleteEvent>) -> (r: bool)
    ensures
        r == spec_keys_strictly_increasing(spec_event_keys(spec_monotonic_events_view(events@))),
{
    let ghost keys = spec_event_keys(spec_monotonic_events_view(events@));
    if events.len() < 2 {
        return true;
    }
    let mut i: usize = 1;
    while i < events.len()
        invariant
            1 <= i <= events@.len(),
            keys == spec_event_keys(spec_monotonic_events_view(events@)),
            forall|a: int, b: int|
                0 <= a < b < i ==> spec_compare_point(keys[a], keys[b]) == KeyOrder::Less,
        decreases events@.len() - i,
    {
        assert(keys[i - 1] == events@[i - 1]@.event_key);
        assert(keys[i as int] == events@[i as int]@.event_key);
        if !matches!(events[i - 1].event_key.compare(&events[i].event_key), KeyOrder::Less) {
            return false;
        }
        proof {
            assert forall|a: int, b: int| 0 <= a < b < i + 1 implies spec_compare_point(
                keys[a],
                keys[b],
            ) == KeyOrder::Less by {
                if b == i && a < i - 1 {
                    lemma_compare_point_transitive(keys[a], keys[i - 1], keys[i as int]);
                    lemma_compare_point_equal(keys[a], keys[i - 1]);
                }
            }
        }
        i += 1;
    }
    true
}

} // verus!
