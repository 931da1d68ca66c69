//! Ids for new table files.
//!
//! The metadata service hands out ids in batches: each batch a range of
//! numbers that lies behind every range it handed out before. The manager
//! keeps the rest of the last batch and gives out one id at a time; it never
//! makes up an id of its own. Fetching a batch is the caller's business: the
//! manager says when one is due and is told what came back.

use crate::error::HummockError;
use vstd::prelude::*;

verus! {

/// The id of a table file's object.
pub type HummockSstableObjectId = u64;

/// The ids from `start_id` up to, and without, `end_id`.
#[derive(Clone, Copy, Debug, PartialEq, Eq, Structural)]
pub struct SstObjectIdRange {
    pub start_id: HummockSstableObjectId,
    pub end_id: HummockSstableObjectId,
}

impl SstObjectIdRange {
    pub fn new(start_id: HummockSstableObjectId, end_id: HummockSstableObjectId) -> (r: Self)
        ensures
            r.start_id == start_id,
            r.end_id == end_id,
    {
        SstObjectIdRange { start_id, end_id }
    }

    /// The next id of the range, or `None` where the range is used up.
    pub fn peek_next_sst_object_id(&self) -> (r: Option<HummockSstableObjectId>)
        ensures
            r == if self.start_id < self.end_id {
                Some(self.start_id)
            } else {
                None
            },
    {
        if self.start_id < self.end_id {
            Some(self.start_id)
        } else {
            None
        }
    }

    /// Takes the next id out of the range, or `None` where the range is
    /// used up.
    pub fn get_next_sst_object_id(&mut self) -> (r: Option<HummockSstableObjectId>)
        ensures
            r == if old(self).start_id < old(self).end_id {
                Some(old(self).start_id)
            } else {
                None
            },
            final(self).end_id == old(self).end_id,
            final(self).start_id == if old(self).start_id < old(self).end_id {
                (old(self).start_id + 1) as u64
            } else {
                old(self).start_id
            },
    {
        if self.start_id < self.end_id {
            let id = self.start_id;
            self.start_id = self.start_id + 1;
            Some(id)
        } else {
            None
        }
    }
}

/// What the manager answers when asked for an id.
#[derive(Clone, Copy, Debug, PartialEq, Eq, Structural)]
pub enum NextObjectId {
    /// The id to use.
    Ready(HummockSstableObjectId),
    /// The batch is used up: fetch that many ids from the metadata service,
    /// report what came back, and ask again.
    Fetch(u32),
}

/// What came back from the metadata service.
#[derive(Clone, Copy, Debug, PartialEq, Eq, Structural)]
pub enum FetchedIds {
    /// A new batch.
    Range(SstObjectIdRange),
    /// The service could not be reached.
    Unreachable,
}

/// What happens to a manager: it is asked for an id, or told what a fetch
/// brought.
#[derive(Clone, Copy, Debug, PartialEq, Eq, Structural)]
pub enum IdEvent {
    Get,
    Fetched(FetchedIds),
}

/// Gives out the ids of new table files.
pub struct SstableObjectIdManager {
    available_sst_object_ids: SstObjectIdRange,
    remote_fetch_number: u32,
}

/// Whether a batch can follow the ids in `available`: it is not empty and
/// lies behind them.
pub open spec fn spec_accepts(available: SstObjectIdRange, fetched: SstObjectIdRange) -> bool {
    fetched.start_id < fetched.end_id && available.end_id <= fetched.start_id
}

/// The ids available after an event, and the id that the event gave out, if
/// it gave one out.
pub open spec fn spec_id_step(available: SstObjectIdRange, event: IdEvent) -> (
    SstObjectIdRange,
    Option<u64>,
) {
    match event {
        IdEvent::Get => if available.start_id < available.end_id {
            (
                SstObjectIdRange {
                    start_id: (available.start_id + 1) as u64,
                    end_id: available.end_id,
                },
                Some(available.start_id),
            )
        } else {
            (available, None)
        },
        IdEvent::Fetched(FetchedIds::Range(fetched)) => if spec_accepts(available, fetched) {
            (fetched, None)
        } else {
            (available, None)
        },
        IdEvent::Fetched(FetchedIds::Unreachable) => (available, None),
    }
}

/// The ids available after a new manager has seen `events` in turn, and the
/// ids that it gave out, in the order in which it gave them out.
pub open spec fn spec_ids_run(events: Seq<IdEvent>) -> (SstObjectIdRange, Seq<u64>)
    decreases events.len(),
{
    if events.len() == 0 {
        (SstObjectIdRange { start_id: 0, end_id: 0 }, Seq::empty())
    } else {
        let before = spec_ids_run(events.drop_last());
        let step = spec_id_step(before.0, events.last());
        (
            step.0,
            match step.1 {
                Some(id) => before.1.push(id),
                None => before.1,
            },
        )
    }
}

/// No id is given out twice: whatever a manager is asked and told, the ids
/// that it gives out ascend, each larger than the one before.
pub proof fn lemma_ids_are_unique(events: Seq<IdEvent>)
    ensures
        forall|i: int, j: int|
            0 <= i < j < spec_ids_run(events).1.len() ==> spec_ids_run(events).1[i]
                < spec_ids_run(events).1[j],
        forall|i: int|
            0 <= i < spec_ids_run(events).1.len() ==> spec_ids_run(events).1[i] < spec_ids_run(
                events,
            ).0.start_id,
        spec_ids_run(events).0.start_id <= spec_ids_run(events).0.end_id,
    decreases events.len(),
{
    if events.len() > 0 {
        lemma_ids_are_unique(events.drop_last());
    }
}

/// Whether the event reports a batch that holds `id`.
pub open spec fn spec_batch_holds(event: IdEvent, id: u64) -> bool {
    match event {
        IdEvent::Fetched(FetchedIds::Range(r)) => r.start_id <= id < r.end_id,
        _ => false,
    }
}

/// Whether the event reports a batch that `available` is the rest of.
pub open spec fn spec_batch_covers(event: IdEvent, available: SstObjectIdRange) -> bool {
    match event {
        IdEvent::Fetched(FetchedIds::Range(r)) => r.start_id <= available.start_id
            && available.end_id == r.end_id,
        _ => false,
    }
}

/// Every id that is given out was handed out by the metadata service: it
/// lies in a batch that was reported to the manager.
pub proof fn lemma_ids_come_from_batches(events: Seq<IdEvent>, i: int)
    requires
        0 <= i < spec_ids_run(events).1.len(),
    ensures
        exists|k: int|
            0 <= k < events.len() && spec_batch_holds(#[trigger] events[k], spec_ids_run(events).1[i]),
    decreases events.len(),
{
    lemma_available_comes_from_batch(events);
    if events.len() > 0 {
        let init = events.drop_last();
        lemma_available_comes_from_batch(init);
        if i < spec_ids_run(init).1.len() {
            lemma_ids_come_from_batches(init, i);
            let k = choose|k: int|
                0 <= k < init.len() && spec_batch_holds(#[trigger] init[k], spec_ids_run(init).1[i]);
            assert(events[k] == init[k]);
        } else {
            let available = spec_ids_run(init).0;
            let k = choose|k: int|
                0 <= k < init.len() && spec_batch_covers(#[trigger] init[k], available);
            assert(events[k] == init[k]);
        }
    }
}

/// The ids that are available are the rest of a batch that was reported.
proof fn lemma_available_comes_from_batch(events: Seq<IdEvent>)
    ensures
        spec_ids_run(events).0.start_id < spec_ids_run(events).0.end_id ==> exists|k: int|
            0 <= k < events.len() && spec_batch_covers(#[trigger] events[k], spec_ids_run(events).0),
    decreases events.len(),
{
    if events.len() > 0 {
        let init = events.drop_last();
        lemma_available_comes_from_batch(init);
        let before = spec_ids_run(init).0;
        let after = spec_ids_run(events).0;
        if after.start_id < after.end_id {
            match events.last() {
                IdEvent::Fetched(FetchedIds::Range(fetched)) => {
                    if spec_accepts(before, fetched) {
                        assert(events[events.len() - 1] == events.last());
                    } else {
                        let k = choose|k: int|
                            0 <= k < init.len() && spec_batch_covers(#[trigger] init[k], before);
                        assert(events[k] == init[k]);
                    }
                },
                _ => {
                    let k = choose|k: int|
                        0 <= k < init.len() && spec_batch_covers(#[trigger] init[k], before);
                    assert(events[k] == init[k]);
                },
            }
        }
    }
}

impl SstableObjectIdManager {
    /// The ids that are left of the last batch.
    pub closed spec fn spec_available(&self) -> SstObjectIdRange {
        self.available_sst_object_ids
    }

    /// The size of the batches that are fetched.
    pub closed spec fn spec_remote_fetch_number(&self) -> u32 {
        self.remote_fetch_number
    }

    /// A manager without ids that fetches `remote_fetch_number` at a time.
    pub fn new(remote_fetch_number: u32) -> (r: Self)
        ensures
            r.spec_available() == (SstObjectIdRange { start_id: 0, end_id: 0 }),
            r.spec_remote_fetch_number() == remote_fetch_number,
    {
        SstableObjectIdManager {
            available_sst_object_ids: SstObjectIdRange::new(0, 0),
            remote_fetch_number,
        }
    }

    /// The next id, or the request to fetch a batch where none is left.
    pub fn get_new_sst_object_id(&mut self) -> (r: NextObjectId)
        ensures
            final(self).spec_remote_fetch_number() == old(self).spec_remote_fetch_number(),
            final(self).spec_available() == spec_id_step(old(self).spec_available(), IdEvent::Get).0,
            r == match spec_id_step(old(self).spec_available(), IdEvent::Get).1 {
                Some(id) => NextObjectId::Ready(id),
                None => NextObjectId::Fetch(old(self).spec_remote_fetch_number()),
            },
    {
        match self.available_sst_object_ids.get_next_sst_object_id() {
            Some(id) => NextObjectId::Ready(id),
            None => NextObjectId::Fetch(self.remote_fetch_number),
        }
    }

    /// Takes in what a fetch brought. A batch that is not empty and lies
    /// behind the ids at hand replaces them. Where the service could not be
    /// reached, or the batch is empty or does not lie behind the ids at
    /// hand, the manager is left as it was and the error says so.
    pub fn add_fetched_ids(&mut self, fetched: FetchedIds) -> (r: Result<(), HummockError>)
        ensures
            final(self).spec_remote_fetch_number() == old(self).spec_remote_fetch_number(),
            final(self).spec_available() == spec_id_step(
                old(self).spec_available(),
                IdEvent::Fetched(fetched),
            ).0,
            r == match fetched {
                FetchedIds::Unreachable => Err::<(), HummockError>(HummockError::Connectivity),
                FetchedIds::Range(range) => if spec_accepts(old(self).spec_available(), range) {
                    Ok::<(), HummockError>(())
                } else {
                    Err::<(), HummockError>(
                        HummockError::ObjectIdMovesBackwards {
                            expected_at_least: old(self).spec_available().end_id,
                            found: range.start_id,
                        },
                    )
                },
            },
    {
        match fetched {
            FetchedIds::Unreachable => Err(HummockError::Connectivity),
            FetchedIds::Range(range) => {
                if range.start_id < range.end_id && self.available_sst_object_ids.end_id
                    <= range.start_id {
                    self.available_sst_object_ids = range;
                    Ok(())
                } else {
                    Err(
                        HummockError::ObjectIdMovesBackwards {
                            expected_at_least: self.available_sst_object_ids.end_id,
                            found: range.start_id,
                        },
                    )
                }
            },
        }
    }
}

} // verus!
