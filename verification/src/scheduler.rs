use vstd::prelude::*;

use crate::aggregator::Aggregator;

verus! {

/// How many times a whole batch is retried before the cursor force-advances
/// past its missing chunks.
pub const DEFAULT_MAX_BATCH_RETRIES: u32 = 3;

/// The ids a round assigns to workers: the batch `[cursor, cursor + concurrency)`
/// with every already-processed id skipped.
pub open spec fn round_assignment(cursor: int, concurrency: int, processed: Set<int>) -> Set<int> {
    Set::new(|id: int| cursor <= id < cursor + concurrency && !processed.contains(id))
}

/// Every id of the batch `[cursor, cursor + concurrency)` has been processed.
pub open spec fn batch_complete(cursor: int, concurrency: int, agg: Aggregator) -> bool {
    forall|id: int| cursor <= id < cursor + concurrency ==> agg.is_processed_id(id)
}

/// The batch driver's state: the next unclaimed chunk id, how often the
/// current batch has been retried, and whether end of stream was seen.
pub struct Scheduler {
    pub cursor: usize,
    pub batch_retry_count: u32,
    pub eof: bool,
}

impl Scheduler {
    /// A scheduler at the start of a run.
    pub fn new() -> (r: Scheduler)
        ensures
            r.cursor == 0,
            r.batch_retry_count == 0,
            !r.eof,
    {
        Scheduler { cursor: 0, batch_retry_count: 0, eof: false }
    }

    /// The ids to hand to workers this round: the current batch in ascending
    /// order, with ids already in the processed set skipped (idempotent-skip).
    pub fn round_ids(&self, concurrency: usize, agg: &Aggregator) -> (ids: Vec<usize>)
        requires
            self.cursor + concurrency <= usize::MAX,
        ensures
            forall|k: int|
                0 <= k < ids@.len() ==> round_assignment(
                    self.cursor as int,
                    concurrency as int,
                    agg.processed_ids(),
                ).contains(#[trigger] ids@[k] as int),
            forall|id: int|
                round_assignment(self.cursor as int, concurrency as int, agg.processed_ids())
                    .contains(id) ==> exists|k: int| 0 <= k < ids@.len() && ids@[k] == id,
            forall|k1: int, k2: int| 0 <= k1 < k2 < ids@.len() ==> ids@[k1] < ids@[k2],
    {
        let mut ids: Vec<usize> = Vec::new();
        let mut i: usize = 0;
        while i < concurrency
            invariant
                self.cursor + concurrency <= usize::MAX,
                i <= concurrency,
                forall|k: int|
                    0 <= k < ids@.len() ==> self.cursor <= #[trigger] ids@[k] < self.cursor + i,
                forall|k: int|
                    0 <= k < ids@.len() ==> round_assignment(
                        self.cursor as int,
                        concurrency as int,
                        agg.processed_ids(),
                    ).contains(#[trigger] ids@[k] as int),
                forall|id: int|
                    self.cursor <= id < self.cursor + i && !agg.is_processed_id(id) ==> exists|
                        k: int,
                    | 0 <= k < ids@.len() && ids@[k] == id,
                forall|k1: int, k2: int| 0 <= k1 < k2 < ids@.len() ==> ids@[k1] < ids@[k2],
            decreases concurrency - i,
        {
            let id = self.cursor + i;
            if !agg.is_processed(id) {
                let ghost pre = ids@;
                ids.push(id);
                proof {
                    assert forall|x: int|
                        self.cursor <= x < self.cursor + i + 1 && !agg.is_processed_id(
                            x,
                        ) implies exists|k: int| 0 <= k < ids@.len() && ids@[k] == x by {
                        if x < self.cursor + i {
                            let k = choose|k: int| 0 <= k < pre.len() && pre[k] == x;
                            assert(ids@[k] == x);
                        } else {
                            assert(ids@[ids@.len() - 1] == x);
                        }
                    }
                }
            } else {
                proof {
                    assert forall|x: int|
                        self.cursor <= x < self.cursor + i + 1 && !agg.is_processed_id(
                            x,
                        ) implies exists|k: int| 0 <= k < ids@.len() && ids@[k] == x by {
                        assert(x < self.cursor + i);
                        let k = choose|k: int| 0 <= k < ids@.len() && ids@[k] == x;
                    }
                }
            }
            i = i + 1;
        }
        ids
    }

    /// Apply one round's outcome to the scheduler, as the round barrier ends.
    ///
    /// An EOF signal anywhere in the round stops scheduling for good. Without
    /// one: a complete batch advances the cursor and resets the retry count; an
    /// incomplete batch is retried with the cursor standing still, until
    /// `max_batch_retries` retries are spent, at which point the cursor
    /// force-advances past the batch's missing ids (accepting their loss) and
    /// the retry count resets.
    pub fn after_round(
        &mut self,
        concurrency: usize,
        max_batch_retries: u32,
        round_eof: bool,
        agg: &Aggregator,
    )
        requires
            old(self).cursor + concurrency <= usize::MAX,
            old(self).batch_retry_count <= max_batch_retries,
        ensures
            final(self).eof == (old(self).eof || round_eof),
            final(self).batch_retry_count <= max_batch_retries,
            round_eof ==> final(self).cursor == old(self).cursor && final(self).batch_retry_count
                == old(self).batch_retry_count,
            !round_eof ==> {
                if batch_complete(old(self).cursor as int, concurrency as int, *agg) {
                    &&& final(self).cursor == old(self).cursor + concurrency
                    &&& final(self).batch_retry_count == 0
                } else {
                    if old(self).batch_retry_count + 1 > max_batch_retries {
                        &&& final(self).cursor == old(self).cursor + concurrency
                        &&& final(self).batch_retry_count == 0
                    } else {
                        &&& final(self).cursor == old(self).cursor
                        &&& final(self).batch_retry_count == old(self).batch_retry_count + 1
                    }
                }
            },
    {
        if round_eof {
            self.eof = true;
            return ;
        }
        let mut complete: bool = true;
        let mut i: usize = 0;
        while i < concurrency
            invariant
                self.cursor + concurrency <= usize::MAX,
                i <= concurrency,
                complete ==> forall|id: int|
                    self.cursor <= id < self.cursor + i ==> agg.is_processed_id(id),
                !complete ==> exists|id: int|
                    self.cursor <= id < self.cursor + concurrency && !agg.is_processed_id(id),
            decreases concurrency - i,
        {
            if !agg.is_processed(self.cursor + i) {
                complete = false;
            }
            i = i + 1;
        }
        if complete {
            self.cursor = self.cursor + concurrency;
            self.batch_retry_count = 0;
        } else {
            if self.batch_retry_count >= max_batch_retries {
                self.cursor = self.cursor + concurrency;
                self.batch_retry_count = 0;
            } else {
                self.batch_retry_count = self.batch_retry_count + 1;
            }
        }
    }
}

/// Idempotence: an id once in the processed set is assigned to no worker in
/// any later round — whatever the cursor then is and however the processed
/// set has grown in the meantime.
pub proof fn lemma_idempotent_skip(
    id: int,
    cursor: int,
    concurrency: int,
    earlier: Set<int>,
    later: Set<int>,
)
    requires
        earlier.contains(id),
        earlier.subset_of(later),
    ensures
        !round_assignment(cursor, concurrency, later).contains(id),
{
}

/// Batch recovery: a retried round, with the cursor standing still, assigns
/// only ids of the same batch that are still missing — a subset of the round
/// before, never the full id space again.
pub proof fn lemma_batch_retry_only_missing(
    cursor: int,
    concurrency: int,
    earlier: Set<int>,
    later: Set<int>,
)
    requires
        earlier.subset_of(later),
    ensures
        round_assignment(cursor, concurrency, later).subset_of(
            round_assignment(cursor, concurrency, earlier),
        ),
{
}

} // verus!
