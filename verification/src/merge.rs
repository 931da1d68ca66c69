//! Merging the sorted inputs of a compaction into one sorted run.
//!
//! Versions order by user key, and for one user key from the newest epoch
//! to the oldest, so that the version that readers see comes first.

use crate::active_epochs::lemma_empty_to_multiset;
use crate::compaction::{spec_entries_view, KeyedEntry, KeyedEntryView};
use crate::key::{
    lemma_compare_bytes_antisymmetric, lemma_compare_bytes_transitive, spec_compare_user_key,
    spec_reverse, FullKey, FullKeyView, KeyOrder,
};
use vstd::multiset::Multiset;
use vstd::prelude::*;

verus! {

/// Order of two versions: by user key; for one user key the newer epoch
/// first.
pub open spec fn spec_compare_full_key(a: FullKeyView, b: FullKeyView) -> KeyOrder {
    match spec_compare_user_key(a.user_key, b.user_key) {
        KeyOrder::Less => KeyOrder::Less,
        KeyOrder::Greater => KeyOrder::Greater,
        KeyOrder::Equal => if a.epoch > b.epoch {
            KeyOrder::Less
        } else if a.epoch < b.epoch {
            KeyOrder::Greater
        } else {
            KeyOrder::Equal
        },
    }
}

/// Swapping the arguments reverses the order of two versions.
pub proof fn lemma_compare_full_key_antisymmetric(a: FullKeyView, b: FullKeyView)
    ensures
        spec_compare_full_key(b, a) == spec_reverse(spec_compare_full_key(a, b)),
{
    lemma_compare_bytes_antisymmetric(a.user_key.table_key, b.user_key.table_key);
}

/// The order of versions is transitive.
pub proof fn lemma_compare_full_key_transitive(a: FullKeyView, b: FullKeyView, c: FullKeyView)
    requires
        spec_compare_full_key(a, b) != KeyOrder::Greater,
        spec_compare_full_key(b, c) != KeyOrder::Greater,
    ensures
        spec_compare_full_key(a, c) != KeyOrder::Greater,
{
    if a.user_key.table_id == b.user_key.table_id && b.user_key.table_id == c.user_key.table_id {
        lemma_compare_bytes_transitive(
            a.user_key.table_key,
            b.user_key.table_key,
            c.user_key.table_key,
        );
    }
}

/// Whether the versions stand in order.
pub open spec fn spec_sorted(entries: Seq<KeyedEntryView>) -> bool {
    forall|i: int, j: int|
        0 <= i < j < entries.len() ==> spec_compare_full_key(entries[i].key, entries[j].key)
            != KeyOrder::Greater
}

/// The versions of the first `n` runs together, each as often as the runs
/// hold it.
pub open spec fn spec_union(runs: Seq<Seq<KeyedEntryView>>, n: nat) -> Multiset<KeyedEntryView>
    decreases n,
{
    if n == 0 {
        Multiset::empty()
    } else {
        spec_union(runs, (n - 1) as nat).add(runs[n - 1].to_multiset())
    }
}

/// The views of a vector of runs.
pub open spec fn spec_runs_view(runs: Seq<Vec<KeyedEntry>>) -> Seq<Seq<KeyedEntryView>> {
    Seq::new(runs.len(), |i: int| spec_entries_view(runs[i]@))
}

impl FullKey {
    /// Compares two versions: by user key; for one user key the newer epoch
    /// first.
    pub fn compare(&self, other: &FullKey) -> (r: KeyOrder)
        ensures
            r == spec_compare_full_key(self@, other@),
    {
        match self.user_key.compare(&other.user_key) {
            KeyOrder::Less => KeyOrder::Less,
            KeyOrder::Greater => KeyOrder::Greater,
            KeyOrder::Equal => if self.epoch > other.epoch {
                KeyOrder::Less
            } else if self.epoch < other.epoch {
                KeyOrder::Greater
            } else {
                KeyOrder::Equal
            },
        }
    }
}

/// Merges two sorted runs into one.
#[verifier::rlimit(50)]
pub fn merge_two(a: &Vec<KeyedEntry>, b: &Vec<KeyedEntry>) -> (r: Vec<KeyedEntry>)
    requires
        spec_sorted(spec_entries_view(a@)),
        spec_sorted(spec_entries_view(b@)),
    ensures
        spec_sorted(spec_entries_view(r@)),
        spec_entries_view(r@).to_multiset() == spec_entries_view(a@).to_multiset().add(
            spec_entries_view(b@).to_multiset(),
        ),
{
    broadcast use vstd::multiset::group_multiset_axioms;

    let ghost av = spec_entries_view(a@);
    let ghost bv = spec_entries_view(b@);
    let mut out: Vec<KeyedEntry> = Vec::new();
    let mut i: usize = 0;
    let mut j: usize = 0;
    proof {
        assert(av.subrange(0, 0) =~= Seq::empty());
        assert(bv.subrange(0, 0) =~= Seq::empty());
        assert(spec_entries_view(out@) =~= Seq::empty());
        lemma_empty_to_multiset::<KeyedEntryView>();
        assert(Multiset::<KeyedEntryView>::empty().add(Multiset::empty()) =~= Multiset::empty());
    }
    while i < a.len() || j < b.len()
        invariant
            i <= a@.len(),
            j <= b@.len(),
            av == spec_entries_view(a@),
            bv == spec_entries_view(b@),
            spec_sorted(av),
            spec_sorted(bv),
            spec_sorted(spec_entries_view(out@)),
            spec_entries_view(out@).to_multiset() == av.subrange(0, i as int).to_multiset().add(
                bv.subrange(0, j as int).to_multiset(),
            ),
            forall|k: int|
                0 <= k < out@.len() && i < av.len() ==> spec_compare_full_key(
                    (#[trigger] spec_entries_view(out@)[k]).key,
                    av[i as int].key,
                ) != KeyOrder::Greater,
            forall|k: int|
                0 <= k < out@.len() && j < bv.len() ==> spec_compare_full_key(
                    (#[trigger] spec_entries_view(out@)[k]).key,
                    bv[j as int].key,
                ) != KeyOrder::Greater,
        decreases (a@.len() - i) + (b@.len() - j),
    {
        let ghost before = spec_entries_view(out@);
        let take_a = if j == b.len() {
            true
        } else if i == a.len() {
            false
        } else {
            !matches!(a[i].key.compare(&b[j].key), KeyOrder::Greater)
        };
        if take_a {
            let x = a[i].duplicate();
            assert(x@ == av[i as int]);
            out.push(x);
            proof {
                let after = spec_entries_view(out@);
                assert(after =~= before.push(av[i as int]));
                assert(av.subrange(0, i + 1) =~= av.subrange(0, i as int).push(av[i as int]));
                vstd::seq_lib::to_multiset_build(before, av[i as int]);
                vstd::seq_lib::to_multiset_build(av.subrange(0, i as int), av[i as int]);
                assert(after.to_multiset() =~= av.subrange(0, i + 1).to_multiset().add(
                    bv.subrange(0, j as int).to_multiset(),
                ));
                assert forall|k: int| 0 <= k < after.len() && i + 1 < av.len() implies spec_compare_full_key(
                    (#[trigger] after[k]).key,
                    av[i + 1].key,
                ) != KeyOrder::Greater by {
                    if k < before.len() {
                        assert(after[k] == before[k]);
                        lemma_compare_full_key_transitive(
                            before[k].key,
                            av[i as int].key,
                            av[i + 1].key,
                        );
                    }
                }
                assert forall|k: int| 0 <= k < after.len() && j < bv.len() implies spec_compare_full_key(
                    (#[trigger] after[k]).key,
                    bv[j as int].key,
                ) != KeyOrder::Greater by {
                    if k < before.len() {
                        assert(after[k] == before[k]);
                    }
                }
                assert forall|x: int, y: int| 0 <= x < y < after.len() implies spec_compare_full_key(
                    after[x].key,
                    after[y].key,
                ) != KeyOrder::Greater by {
                    assert(after[x] == before[x]);
                    if y < before.len() {
                        assert(after[y] == before[y]);
                    }
                }
            }
            i += 1;
        } else {
            let x = b[j].duplicate();
            assert(x@ == bv[j as int]);
            out.push(x);
            proof {
                let after = spec_entries_view(out@);
                assert(after =~= before.push(bv[j as int]));
                assert(bv.subrange(0, j + 1) =~= bv.subrange(0, j as int).push(bv[j as int]));
                vstd::seq_lib::to_multiset_build(before, bv[j as int]);
                vstd::seq_lib::to_multiset_build(bv.subrange(0, j as int), bv[j as int]);
                assert(after.to_multiset() =~= av.subrange(0, i as int).to_multiset().add(
                    bv.subrange(0, j + 1).to_multiset(),
                ));
                if i < av.len() {
                    lemma_compare_full_key_antisymmetric(av[i as int].key, bv[j as int].key);
                }
                assert forall|k: int| 0 <= k < after.len() && j + 1 < bv.len() implies spec_compare_full_key(
                    (#[trigger] after[k]).key,
                    bv[j + 1].key,
                ) != KeyOrder::Greater by {
                    if k < before.len() {
                        assert(after[k] == before[k]);
                        lemma_compare_full_key_transitive(
                            before[k].key,
                            bv[j as int].key,
                            bv[j + 1].key,
                        );
                    }
                }
                assert forall|k: int| 0 <= k < after.len() && i < av.len() implies spec_compare_full_key(
                    (#[trigger] after[k]).key,
                    av[i as int].key,
                ) != KeyOrder::Greater by {
                    if k < before.len() {
                        assert(after[k] == before[k]);
                    }
                }
                assert forall|x: int, y: int| 0 <= x < y < after.len() implies spec_compare_full_key(
                    after[x].key,
                    after[y].key,
                ) != KeyOrder::Greater by {
                    assert(after[x] == before[x]);
                    if y < before.len() {
                        assert(after[y] == before[y]);
                    }
                }
            }
            j += 1;
        }
    }
    proof {
        assert(av.subrange(0, i as int) =~= av);
        assert(bv.subrange(0, j as int) =~= bv);
    }
    out
}

/// Merges sorted runs into one sorted run that holds every version of
/// every run.
pub fn merge_sorted_runs(runs: &Vec<Vec<KeyedEntry>>) -> (r: Vec<KeyedEntry>)
    requires
        forall|k: int| 0 <= k < runs@.len() ==> spec_sorted(#[trigger] spec_runs_view(runs@)[k]),
    ensures
        spec_sorted(spec_entries_view(r@)),
        spec_entries_view(r@).to_multiset() == spec_union(spec_runs_view(runs@), runs@.len()),
{
    let ghost views = spec_runs_view(runs@);
    let mut merged: Vec<KeyedEntry> = Vec::new();
    proof {
        assert(spec_entries_view(merged@) =~= Seq::empty());
        broadcast use vstd::multiset::group_multiset_axioms;

        lemma_empty_to_multiset::<KeyedEntryView>();
    }
    let mut k: usize = 0;
    while k < runs.len()
        invariant
            k <= runs@.len(),
            views == spec_runs_view(runs@),
            forall|k: int| 0 <= k < runs@.len() ==> spec_sorted(#[trigger] views[k]),
            spec_sorted(spec_entries_view(merged@)),
            spec_entries_view(merged@).to_multiset() == spec_union(views, k as nat),
        decreases runs@.len() - k,
    {
        assert(views[k as int] == spec_entries_view(runs@[k as int]@));
        merged = merge_two(&merged, &runs[k]);
        k += 1;
    }
    merged
}

/// Whether the versions stand in order.
pub fn is_sorted(entries: &Vec<KeyedEntry>) -> (r: bool)
    ensures
        r == spec_sorted(spec_entries_view(entries@)),
{
    let ghost views = spec_entries_view(entries@);
    if entries.len() < 2 {
        return true;
    }
    let mut i: usize = 1;
    while i < entries.len()
        invariant
            1 <= i <= entries@.len(),
            views == spec_entries_view(entries@),
            forall|a: int, b: int|
                0 <= a < b < i ==> spec_compare_full_key(views[a].key, views[b].key)
                    != KeyOrder::Greater,
        decreases entries@.len() - i,
    {
        assert(views[i - 1] == entries@[i - 1]@);
        assert(views[i as int] == entries@[i as int]@);
        if matches!(entries[i - 1].key.compare(&entries[i].key), KeyOrder::Greater) {
            assert(spec_compare_full_key(views[i - 1].key, views[i as int].key)
                == KeyOrder::Greater);
            return false;
        }
        proof {
            assert forall|a: int, b: int| 0 <= a < b < i + 1 implies spec_compare_full_key(
                views[a].key,
                views[b].key,
            ) != KeyOrder::Greater by {
                if b == i && a < i - 1 {
                    lemma_compare_full_key_transitive(
                        views[a].key,
                        views[i - 1].key,
                        views[i as int].key,
                    );
                }
            }
        }
        i += 1;
    }
    true
}

} // verus!
