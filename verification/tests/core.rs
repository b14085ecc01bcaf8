use chunkfetch::aggregator::Aggregator;
use chunkfetch::chunk::chunk_range;
use chunkfetch::chunk::Chunk;
use chunkfetch::response::contains_bytes;
use chunkfetch::response::eof_marker_bytes;
use chunkfetch::response::parse_response;
use chunkfetch::response::response_signals_eof;
use chunkfetch::response::Response;
use chunkfetch::scheduler::Scheduler;
use chunkfetch::worker::run_worker;
use chunkfetch::worker::FetchOutcome;
use chunkfetch::worker::Worker;
use chunkfetch::worker::WorkerStatus;

fn ok_headers() -> Vec<u8> {
    b"HTTP/1.1 206 Partial Content\r\n\r\n".to_vec()
}

fn eof_headers() -> Vec<u8> {
    b"HTTP/1.1 400 Invalid range: beyond end\r\n\r\n".to_vec()
}

#[test]
fn parse_splits_at_first_delimiter() {
    let raw = b"Header: a\r\n\r\nBODY".to_vec();
    let r = parse_response(&raw);
    assert_eq!(r.headers, b"Header: a\r\n\r\n".to_vec());
    assert_eq!(r.body, b"BODY".to_vec());
}

#[test]
fn parse_uses_first_of_two_delimiters() {
    let raw = b"A\r\n\r\nB\r\n\r\nC".to_vec();
    let r = parse_response(&raw);
    assert_eq!(r.headers, b"A\r\n\r\n".to_vec());
    assert_eq!(r.body, b"B\r\n\r\nC".to_vec());
}

#[test]
fn parse_without_delimiter_yields_empty() {
    let raw = b"no delimiter anywhere".to_vec();
    let r = parse_response(&raw);
    assert!(r.headers.is_empty());
    assert!(r.body.is_empty());

    let empty: Vec<u8> = Vec::new();
    let r2 = parse_response(&empty);
    assert!(r2.headers.is_empty());
    assert!(r2.body.is_empty());
}

#[test]
fn eof_marker_in_headers_signals_eof() {
    let r = Response { headers: eof_headers(), body: b"x".to_vec() };
    assert!(response_signals_eof(&r));
}

#[test]
fn empty_body_signals_eof() {
    let r = Response { headers: ok_headers(), body: Vec::new() };
    assert!(response_signals_eof(&r));
}

#[test]
fn data_response_signals_no_eof() {
    let r = Response { headers: ok_headers(), body: b"abc".to_vec() };
    assert!(!response_signals_eof(&r));
}

#[test]
fn partial_marker_does_not_count() {
    let h = b"HTTP/1.1 400 Invalid rang\r\n\r\n".to_vec();
    let marker = eof_marker_bytes();
    assert!(!contains_bytes(&h, &marker));
    assert_eq!(marker, b"400 Invalid range:".to_vec());
}

#[test]
fn chunk_range_maps_id_to_bytes() {
    assert_eq!(chunk_range(0, 65536), (0, 65536));
    assert_eq!(chunk_range(3, 10), (30, 40));
}

#[test]
fn aggregator_records_and_marks_processed() {
    let mut agg = Aggregator::new();
    assert!(!agg.is_processed(5));
    agg.record_chunk(Chunk { id: 5, data: b"hello".to_vec() });
    assert!(agg.is_processed(5));
    assert!(!agg.is_processed(4));
    assert_eq!(agg.total_bytes, 5);
    assert_eq!(agg.chunks.len(), 1);
    assert!(agg.errors.is_empty());
}

#[test]
fn aggregator_error_log_is_append_only() {
    let mut agg = Aggregator::new();
    agg.append_error(7, String::from("connection refused"));
    agg.append_error(2, String::from("timed out"));
    assert_eq!(agg.errors.len(), 2);
    assert_eq!(agg.errors[0].chunk_id, 7);
    assert_eq!(agg.errors[0].message, "connection refused");
    assert_eq!(agg.errors[1].chunk_id, 2);
    assert!(agg.chunks.is_empty());
    assert!(!agg.is_processed(7));
}

#[test]
fn worker_fails_twice_then_succeeds() {
    // Transport fails twice, then hands over data: the worker must end in
    // Success with exactly two errors logged and exactly one chunk recorded.
    let mut agg = Aggregator::new();
    let outcomes = vec![
        FetchOutcome::Failure { message: String::from("refused") },
        FetchOutcome::Failure { message: String::from("reset") },
        FetchOutcome::Success { headers: ok_headers(), body: b"payload".to_vec() },
    ];
    let (w, used) = run_worker(3, outcomes, &mut agg, 2);
    assert_eq!(w.status, WorkerStatus::Success);
    assert_eq!(used, 3);
    assert_eq!(agg.errors.len(), 2);
    assert_eq!(agg.errors[0].chunk_id, 3);
    assert_eq!(agg.errors[0].message, "refused");
    assert_eq!(agg.errors[1].message, "reset");
    assert_eq!(agg.chunks.len(), 1);
    assert_eq!(agg.chunks[0].id, 3);
    assert_eq!(agg.chunks[0].data, b"payload".to_vec());
    assert!(agg.is_processed(3));
}

#[test]
fn worker_abandons_after_retries_spent() {
    // With max_chunk_retries = 2, a deterministically failing transport is
    // tried exactly 3 times, then the chunk is abandoned for this round.
    let mut agg = Aggregator::new();
    let outcomes = vec![
        FetchOutcome::Failure { message: String::from("e1") },
        FetchOutcome::Failure { message: String::from("e2") },
        FetchOutcome::Failure { message: String::from("e3") },
        FetchOutcome::Failure { message: String::from("e4") },
    ];
    let (w, used) = run_worker(0, outcomes, &mut agg, 2);
    assert_eq!(w.status, WorkerStatus::Failed);
    assert_eq!(used, 3);
    assert_eq!(agg.errors.len(), 3);
    assert!(agg.chunks.is_empty());
    assert!(!agg.is_processed(0));
}

#[test]
fn worker_eof_leaves_aggregator_untouched() {
    let mut agg = Aggregator::new();
    agg.record_chunk(Chunk { id: 0, data: b"kept".to_vec() });
    let outcomes = vec![FetchOutcome::Success { headers: eof_headers(), body: b"ignored".to_vec() }];
    let (w, used) = run_worker(1, outcomes, &mut agg, 2);
    assert_eq!(w.status, WorkerStatus::EofSignaled);
    assert_eq!(used, 1);
    assert_eq!(agg.chunks.len(), 1);
    assert_eq!(agg.chunks[0].data, b"kept".to_vec());
    assert!(agg.errors.is_empty());
    assert!(!agg.is_processed(1));
}

#[test]
fn worker_empty_body_counts_as_eof() {
    let mut agg = Aggregator::new();
    let outcomes = vec![FetchOutcome::Success { headers: ok_headers(), body: Vec::new() }];
    let (w, _) = run_worker(9, outcomes, &mut agg, 2);
    assert_eq!(w.status, WorkerStatus::EofSignaled);
    assert!(agg.chunks.is_empty());
}

#[test]
fn worker_backoff_doubles_per_attempt() {
    let mut agg = Aggregator::new();
    let mut w = Worker::new(4);
    let d1 = w.step(&mut agg, FetchOutcome::Failure { message: String::from("a") }, 2);
    assert_eq!(d1, Some(100));
    let d2 = w.step(&mut agg, FetchOutcome::Failure { message: String::from("b") }, 2);
    assert_eq!(d2, Some(200));
    let d3 = w.step(&mut agg, FetchOutcome::Failure { message: String::from("c") }, 2);
    assert_eq!(d3, None);
    assert_eq!(w.status, WorkerStatus::Failed);
    assert_eq!(w.attempts, 3);
}

#[test]
fn round_ids_skips_processed() {
    // An id already captured is never assigned to a worker again.
    let mut agg = Aggregator::new();
    agg.record_chunk(Chunk { id: 2, data: b"x".to_vec() });
    let mut sched = Scheduler::new();
    sched.cursor = 2;
    let ids = sched.round_ids(3, &agg);
    assert_eq!(ids, vec![3, 4]);
}

#[test]
fn round_ids_full_batch_when_nothing_processed() {
    let agg = Aggregator::new();
    let sched = Scheduler::new();
    let ids = sched.round_ids(4, &agg);
    assert_eq!(ids, vec![0, 1, 2, 3]);
}

#[test]
fn after_round_advances_when_batch_complete() {
    let mut agg = Aggregator::new();
    agg.record_chunk(Chunk { id: 0, data: b"a".to_vec() });
    agg.record_chunk(Chunk { id: 1, data: b"b".to_vec() });
    let mut sched = Scheduler::new();
    sched.after_round(2, 3, false, &agg);
    assert_eq!(sched.cursor, 2);
    assert_eq!(sched.batch_retry_count, 0);
    assert!(!sched.eof);
}

#[test]
fn after_round_retries_then_force_advances() {
    // Missing ids keep the cursor still for max_batch_retries rounds, then
    // the cursor force-advances and the retry count resets.
    let agg = Aggregator::new();
    let mut sched = Scheduler::new();
    for expected_retry in 1..=3u32 {
        sched.after_round(2, 3, false, &agg);
        assert_eq!(sched.cursor, 0);
        assert_eq!(sched.batch_retry_count, expected_retry);
    }
    sched.after_round(2, 3, false, &agg);
    assert_eq!(sched.cursor, 2);
    assert_eq!(sched.batch_retry_count, 0);
}

#[test]
fn after_round_eof_stops_scheduling() {
    let agg = Aggregator::new();
    let mut sched = Scheduler::new();
    sched.after_round(2, 3, true, &agg);
    assert!(sched.eof);
    assert_eq!(sched.cursor, 0);
    assert_eq!(sched.batch_retry_count, 0);
}
