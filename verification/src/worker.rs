use vstd::prelude::*;

use crate::aggregator::Aggregator;
use crate::chunk::Chunk;
use crate::chunk::ChunkError;
use crate::response::signals_eof;

verus! {

/// How many times a worker retries one chunk after a failed attempt.
pub const DEFAULT_MAX_CHUNK_RETRIES: u32 = 2;

/// What one transport exchange for a chunk produced: a parsed response, or a
/// failure with the transport's message.
pub enum FetchOutcome {
    Success { headers: Vec<u8>, body: Vec<u8> },
    Failure { message: String },
}

/// The per-chunk state machine's state.
#[derive(Clone, Copy, Debug, PartialEq, Eq, Structural)]
pub enum WorkerStatus {
    Attempting,
    Success,
    EofSignaled,
    Failed,
}

/// The retry state machine for a single chunk id.
pub struct Worker {
    pub chunk_id: usize,
    pub attempts: u32,
    pub status: WorkerStatus,
}

/// The backoff before retry number `attempts`: 50ms doubled with each failure.
pub open spec fn backoff_delay_ms(attempts: u32) -> u64 {
    (50u64 * (1u64 << (attempts as u64))) as u64
}

/// How a worker that starts with `attempts` failures already counted walks a
/// run of transport outcomes: how many outcomes it consumes and the terminal
/// state it reaches (`Attempting` if the run ends before a terminal state).
pub open spec fn run_model(outcomes: Seq<FetchOutcome>, attempts: int, max: int) -> (int,
    WorkerStatus)
    decreases outcomes.len(),
{
    if outcomes.len() == 0 {
        (0, WorkerStatus::Attempting)
    } else {
        match outcomes[0] {
            FetchOutcome::Success { headers, body } => {
                if signals_eof(headers@, body@) {
                    (1, WorkerStatus::EofSignaled)
                } else {
                    (1, WorkerStatus::Success)
                }
            },
            FetchOutcome::Failure { message } => {
                if attempts + 1 <= max {
                    let r = run_model(outcomes.drop_first(), attempts + 1, max);
                    (1 + r.0, r.1)
                } else {
                    (1, WorkerStatus::Failed)
                }
            },
        }
    }
}

/// The error-log entries such a walk appends: one per failed attempt, in order.
pub open spec fn run_errors(id: usize, outcomes: Seq<FetchOutcome>, attempts: int, max: int) -> Seq<
    ChunkError,
>
    decreases outcomes.len(),
{
    if outcomes.len() == 0 {
        Seq::<ChunkError>::empty()
    } else {
        match outcomes[0] {
            FetchOutcome::Success { headers, body } => Seq::<ChunkError>::empty(),
            FetchOutcome::Failure { message } => {
                if attempts + 1 <= max {
                    seq![(ChunkError { chunk_id: id, message })] + run_errors(
                        id,
                        outcomes.drop_first(),
                        attempts + 1,
                        max,
                    )
                } else {
                    seq![(ChunkError { chunk_id: id, message })]
                }
            },
        }
    }
}

/// The chunks such a walk captures: one on a non-EOF success, none otherwise.
pub open spec fn run_chunks(id: usize, outcomes: Seq<FetchOutcome>, attempts: int, max: int) -> Seq<
    Chunk,
>
    decreases outcomes.len(),
{
    if outcomes.len() == 0 {
        Seq::<Chunk>::empty()
    } else {
        match outcomes[0] {
            FetchOutcome::Success { headers, body } => {
                if signals_eof(headers@, body@) {
                    Seq::<Chunk>::empty()
                } else {
                    seq![(Chunk { id, data: body })]
                }
            },
            FetchOutcome::Failure { message } => {
                if attempts + 1 <= max {
                    run_chunks(id, outcomes.drop_first(), attempts + 1, max)
                } else {
                    Seq::<Chunk>::empty()
                }
            },
        }
    }
}

impl Worker {
    /// A fresh worker for one chunk id, before its first attempt.
    pub fn new(chunk_id: usize) -> (w: Worker)
        ensures
            w.chunk_id == chunk_id,
            w.attempts == 0,
            w.status == WorkerStatus::Attempting,
    {
        Worker { chunk_id, attempts: 0, status: WorkerStatus::Attempting }
    }

    /// Drive the state machine by one transport outcome.
    ///
    /// An EOF response moves the worker to `EofSignaled` and leaves the
    /// aggregator untouched. Data moves it to `Success`, recording the chunk
    /// and marking the id processed. A failure is logged; the worker either
    /// stays in `Attempting` and hands back the backoff to sleep before the
    /// next attempt, or — once `max_chunk_retries` retries are spent — ends
    /// in `Failed`, leaving recovery to the scheduler's batch retry.
    pub fn step(
        &mut self,
        agg: &mut Aggregator,
        outcome: FetchOutcome,
        max_chunk_retries: u32,
    ) -> (delay: Option<u64>)
        requires
            old(self).status == WorkerStatus::Attempting,
            old(self).attempts <= max_chunk_retries,
            max_chunk_retries <= 31,
            old(agg).wf(),
            !old(agg).is_processed_id(old(self).chunk_id as int),
        ensures
            final(self).chunk_id == old(self).chunk_id,
            final(agg).wf(),
            (match outcome {
                FetchOutcome::Success { headers, body } => {
                    if signals_eof(headers@, body@) {
                        &&& final(self).status == WorkerStatus::EofSignaled
                        &&& final(self).attempts == old(self).attempts
                        &&& *final(agg) == *old(agg)
                        &&& delay is None
                    } else {
                        &&& final(self).status == WorkerStatus::Success
                        &&& final(self).attempts == old(self).attempts
                        &&& final(agg).chunks@ == old(agg).chunks@.push(
                            (Chunk { id: old(self).chunk_id, data: body }),
                        )
                        &&& final(agg).processed@ == old(agg).processed@.push(old(self).chunk_id)
                        &&& final(agg).errors@ == old(agg).errors@
                        &&& delay is None
                    }
                },
                FetchOutcome::Failure { message } => {
                    &&& final(agg).chunks@ == old(agg).chunks@
                    &&& final(agg).processed@ == old(agg).processed@
                    &&& final(agg).errors@ == old(agg).errors@.push(
                        (ChunkError { chunk_id: old(self).chunk_id, message }),
                    )
                    &&& final(self).attempts == old(self).attempts + 1
                    &&& (if old(self).attempts + 1 <= max_chunk_retries {
                        final(self).status == WorkerStatus::Attempting && delay == Some(
                            backoff_delay_ms((old(self).attempts + 1) as u32),
                        )
                    } else {
                        final(self).status == WorkerStatus::Failed && delay is None
                    })
                },
            }),
    {
        match outcome {
            FetchOutcome::Success { headers, body } => {
                let resp = crate::response::Response { headers, body };
                if crate::response::response_signals_eof(&resp) {
                    self.status = WorkerStatus::EofSignaled;
                    None
                } else {
                    self.status = WorkerStatus::Success;
                    agg.record_chunk(Chunk { id: self.chunk_id, data: resp.body });
                    None
                }
            },
            FetchOutcome::Failure { message } => {
                agg.append_error(self.chunk_id, message);
                self.attempts = self.attempts + 1;
                if self.attempts <= max_chunk_retries {
                    let a: u64 = self.attempts as u64;
                    assert(a <= 32 ==> (1u64 << a) <= 0x1_0000_0000u64) by (bit_vector);
                    let sh: u64 = 1u64 << a;
                    let d: u64 = 50u64 * sh;
                    Some(d)
                } else {
                    self.status = WorkerStatus::Failed;
                    None
                }
            },
        }
    }
}

proof fn lemma_retry_bound_from(id: usize, outcomes: Seq<FetchOutcome>, attempts: int, max: int)
    requires
        0 <= attempts <= max,
        outcomes.len() > max - attempts,
        forall|i: int| 0 <= i < outcomes.len() ==> outcomes[i] is Failure,
    ensures
        run_model(outcomes, attempts, max).0 == max - attempts + 1,
        run_model(outcomes, attempts, max).1 == WorkerStatus::Failed,
        run_errors(id, outcomes, attempts, max).len() == max - attempts + 1,
        run_chunks(id, outcomes, attempts, max) == Seq::<Chunk>::empty(),
    decreases max - attempts,
{
    assert(outcomes[0] is Failure);
    if attempts + 1 <= max {
        assert(forall|i: int|
            0 <= i < outcomes.drop_first().len() ==> outcomes.drop_first()[i] == outcomes[i + 1]);
        lemma_retry_bound_from(id, outcomes.drop_first(), attempts + 1, max);
    }
}

/// Retry bound: against a transport whose calls fail every time, a worker
/// makes exactly `max + 1` attempts within its round — the first try and
/// `max` retries — logs one error per attempt, captures nothing, and ends
/// abandoned in `Failed`.
pub proof fn lemma_retry_bound(id: usize, outcomes: Seq<FetchOutcome>, max: int)
    requires
        0 <= max,
        outcomes.len() > max,
        forall|i: int| 0 <= i < outcomes.len() ==> outcomes[i] is Failure,
    ensures
        run_model(outcomes, 0, max).0 == max + 1,
        run_model(outcomes, 0, max).1 == WorkerStatus::Failed,
        run_errors(id, outcomes, 0, max).len() == max + 1,
        run_chunks(id, outcomes, 0, max) == Seq::<Chunk>::empty(),
{
    lemma_retry_bound_from(id, outcomes, 0, max);
}

/// EOF detection: a response whose header block carries the invalid-range
/// marker, or whose body is empty, ends the worker at once with the EOF
/// signal — one outcome consumed, no error logged, no chunk recorded, so
/// every previously captured chunk is left exactly as it was.
pub proof fn lemma_eof_detection(id: usize, outcomes: Seq<FetchOutcome>, attempts: int, max: int)
    requires
        outcomes.len() > 0,
        outcomes[0] matches FetchOutcome::Success { headers, body } && signals_eof(
            headers@,
            body@,
        ),
    ensures
        run_model(outcomes, attempts, max).0 == 1,
        run_model(outcomes, attempts, max).1 == WorkerStatus::EofSignaled,
        run_errors(id, outcomes, attempts, max) == Seq::<ChunkError>::empty(),
        run_chunks(id, outcomes, attempts, max) == Seq::<Chunk>::empty(),
{
}

/// Walk one worker through a whole run of transport outcomes, mutating the
/// aggregator exactly as the model functions describe: errors for the failed
/// attempts are appended in order, and at most one chunk is recorded. The
/// backoff pauses between attempts are the transport loop's business and are
/// not performed here.
pub fn run_worker(
    chunk_id: usize,
    outcomes: Vec<FetchOutcome>,
    agg: &mut Aggregator,
    max_chunk_retries: u32,
) -> (r: (Worker, usize))
    requires
        old(agg).wf(),
        !old(agg).is_processed_id(chunk_id as int),
        max_chunk_retries <= 31,
    ensures
        final(agg).wf(),
        r.0.chunk_id == chunk_id,
        r.0.status == run_model(outcomes@, 0, max_chunk_retries as int).1,
        r.1 == run_model(outcomes@, 0, max_chunk_retries as int).0,
        final(agg).errors@ == old(agg).errors@ + run_errors(
            chunk_id,
            outcomes@,
            0,
            max_chunk_retries as int,
        ),
        final(agg).chunks@ == old(agg).chunks@ + run_chunks(
            chunk_id,
            outcomes@,
            0,
            max_chunk_retries as int,
        ),
        final(agg).processed@ == old(agg).processed@ + run_chunks(
            chunk_id,
            outcomes@,
            0,
            max_chunk_retries as int,
        ).map_values(|c: Chunk| c.id),
{
    let ghost outs0 = outcomes@;
    let ghost errs0 = agg.errors@;
    let ghost chunks0 = agg.chunks@;
    let ghost procd0 = agg.processed@;
    let ghost m = max_chunk_retries as int;
    let mut done_errs: Ghost<Seq<ChunkError>> = Ghost(Seq::<ChunkError>::empty());
    let mut done_chunks: Ghost<Seq<Chunk>> = Ghost(Seq::<Chunk>::empty());
    let mut rest = outcomes;
    let mut used: usize = 0;
    let mut w = Worker::new(chunk_id);
    let total = rest.len();
    proof {
        assert(outs0.len() == total as int);
        assert(errs0 =~= errs0 + done_errs@);
        assert(chunks0 =~= chunks0 + done_chunks@);
        assert(procd0 =~= procd0 + done_chunks@.map_values(|c: Chunk| c.id));
        assert(rest@ =~= outs0.skip(0));
        assert(run_errors(chunk_id, outs0, 0, m) =~= done_errs@ + run_errors(
            chunk_id,
            rest@,
            0,
            m,
        ));
        assert(run_chunks(chunk_id, outs0, 0, m) =~= done_chunks@ + run_chunks(
            chunk_id,
            rest@,
            0,
            m,
        ));
    }
    while rest.len() > 0 && w.status == WorkerStatus::Attempting
        invariant
            agg.wf(),
            w.chunk_id == chunk_id,
            max_chunk_retries <= 31,
            m == max_chunk_retries as int,
            outs0.len() <= usize::MAX,
            used <= outs0.len(),
            rest@ == outs0.skip(used as int),
            used + rest@.len() == outs0.len(),
            agg.errors@ == errs0 + done_errs@,
            agg.chunks@ == chunks0 + done_chunks@,
            agg.processed@ == procd0 + done_chunks@.map_values(|c: Chunk| c.id),
            w.status == WorkerStatus::Attempting ==> {
                &&& w.attempts <= max_chunk_retries
                &&& !agg.is_processed_id(chunk_id as int)
                &&& run_model(outs0, 0, m).0 == used + run_model(rest@, w.attempts as int, m).0
                &&& run_model(outs0, 0, m).1 == run_model(rest@, w.attempts as int, m).1
                &&& run_errors(chunk_id, outs0, 0, m) == done_errs@ + run_errors(
                    chunk_id,
                    rest@,
                    w.attempts as int,
                    m,
                )
                &&& run_chunks(chunk_id, outs0, 0, m) == done_chunks@ + run_chunks(
                    chunk_id,
                    rest@,
                    w.attempts as int,
                    m,
                )
            },
            w.status != WorkerStatus::Attempting ==> {
                &&& run_model(outs0, 0, m).0 == used
                &&& run_model(outs0, 0, m).1 == w.status
                &&& run_errors(chunk_id, outs0, 0, m) == done_errs@
                &&& run_chunks(chunk_id, outs0, 0, m) == done_chunks@
            },
        decreases rest@.len(),
    {
        let ghost rest_pre = rest@;
        let ghost attempts_pre = w.attempts as int;
        let outcome = rest.remove(0);
        let ghost o = outcome;
        proof {
            assert(rest_pre[0] == o);
            assert(rest@ =~= rest_pre.drop_first());
            assert(rest@ =~= outs0.skip(used + 1));
        }
        let _ = w.step(agg, outcome, max_chunk_retries);
        used = used + 1;
        proof {
            let de_pre = done_errs@;
            let dc_pre = done_chunks@;
            match o {
                FetchOutcome::Success { headers, body } => {
                    assert(run_errors(chunk_id, rest_pre, attempts_pre, m)
                        == Seq::<ChunkError>::empty());
                    assert(de_pre + Seq::<ChunkError>::empty() =~= de_pre);
                    if signals_eof(headers@, body@) {
                        assert(run_chunks(chunk_id, rest_pre, attempts_pre, m)
                            == Seq::<Chunk>::empty());
                        assert(dc_pre + Seq::<Chunk>::empty() =~= dc_pre);
                    } else {
                        let c = Chunk { id: chunk_id, data: body };
                        done_chunks@ = dc_pre.push(c);
                        assert((chunks0 + dc_pre).push(c) =~= chunks0 + dc_pre.push(c));
                        assert((procd0 + dc_pre.map_values(|x: Chunk| x.id)).push(chunk_id)
                            =~= procd0 + dc_pre.push(c).map_values(|x: Chunk| x.id));
                        assert(run_chunks(chunk_id, rest_pre, attempts_pre, m) =~= seq![c]);
                        assert(dc_pre + seq![c] =~= dc_pre.push(c));
                    }
                },
                FetchOutcome::Failure { message } => {
                    let e = ChunkError { chunk_id, message };
                    done_errs@ = de_pre.push(e);
                    assert((errs0 + de_pre).push(e) =~= errs0 + de_pre.push(e));
                    if attempts_pre + 1 <= m {
                        assert(run_errors(chunk_id, rest_pre, attempts_pre, m) == seq![e]
                            + run_errors(chunk_id, rest_pre.drop_first(), attempts_pre + 1, m));
                        assert(de_pre + (seq![e] + run_errors(
                            chunk_id,
                            rest@,
                            attempts_pre + 1,
                            m,
                        )) =~= de_pre.push(e) + run_errors(chunk_id, rest@, attempts_pre + 1, m));
                        assert(run_chunks(chunk_id, rest_pre, attempts_pre, m) == run_chunks(
                            chunk_id,
                            rest@,
                            attempts_pre + 1,
                            m,
                        ));
                    } else {
                        assert(run_errors(chunk_id, rest_pre, attempts_pre, m) =~= seq![e]);
                        assert(de_pre + seq![e] =~= de_pre.push(e));
                        assert(run_chunks(chunk_id, rest_pre, attempts_pre, m)
                            == Seq::<Chunk>::empty());
                        assert(dc_pre + Seq::<Chunk>::empty() =~= dc_pre);
                    }
                },
            }
        }
    }
    proof {
        if w.status == WorkerStatus::Attempting {
            assert(rest@.len() == 0);
            assert(run_model(rest@, w.attempts as int, m).0 == 0);
            assert(run_errors(chunk_id, rest@, w.attempts as int, m) =~= Seq::<ChunkError>::empty());
            assert(run_chunks(chunk_id, rest@, w.attempts as int, m) =~= Seq::<Chunk>::empty());
            assert(done_errs@ + Seq::<ChunkError>::empty() =~= done_errs@);
            assert(done_chunks@ + Seq::<Chunk>::empty() =~= done_chunks@);
        }
    }
    (w, used)
}

} // verus!
