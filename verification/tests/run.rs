use sha2::Digest;

use chunkfetch::aggregator::Aggregator;
use chunkfetch::assembler::assemble;
use chunkfetch::chunk::Chunk;
use chunkfetch::digest::digest_hex;
use chunkfetch::digest::digest_matches;
use chunkfetch::digest::finish_run;
use chunkfetch::digest::to_hex;
use chunkfetch::response::parse_response;
use chunkfetch::scheduler::Scheduler;
use chunkfetch::worker::run_worker;
use chunkfetch::worker::FetchOutcome;
use chunkfetch::worker::WorkerStatus;

fn ok_headers() -> Vec<u8> {
    b"HTTP/1.1 206 Partial Content\r\n\r\n".to_vec()
}

fn reference_hex(data: &[u8]) -> String {
    let digest = sha2::Sha256::digest(data);
    let mut s = String::new();
    for b in digest.iter() {
        s.push_str(&format!("{:02x}", b));
    }
    s
}

#[test]
fn assemble_orders_by_ascending_id() {
    // Output bytes follow ascending chunk-id order whatever order the
    // workers finished in, and the length is the sum of the chunk lengths.
    let chunks = vec![
        Chunk { id: 2, data: b"CC".to_vec() },
        Chunk { id: 0, data: b"AAA".to_vec() },
        Chunk { id: 1, data: b"B".to_vec() },
    ];
    let out = assemble(chunks);
    assert_eq!(out, b"AAABCC".to_vec());
    assert_eq!(out.len(), 6);
}

#[test]
fn assemble_leaves_gaps_silently() {
    let chunks = vec![
        Chunk { id: 3, data: b"tail".to_vec() },
        Chunk { id: 0, data: b"head".to_vec() },
    ];
    let out = assemble(chunks);
    assert_eq!(out, b"headtail".to_vec());
}

#[test]
fn assemble_empty_is_empty() {
    let out = assemble(Vec::new());
    assert!(out.is_empty());
}

#[test]
fn to_hex_renders_lowercase_pairs() {
    let bytes = vec![0xbeu8, 0xef, 0x00, 0x0a];
    assert_eq!(to_hex(&bytes), b"beef000a".to_vec());
}

#[test]
fn digest_hex_of_empty_input_is_known_vector() {
    let empty: Vec<u8> = Vec::new();
    let hex = digest_hex(&empty);
    assert_eq!(
        String::from_utf8(hex).unwrap(),
        "e3b0c44298fc1c149afbf4c8996fb92427ae41e4649b934ca495991b7852b855"
    );
}

#[test]
fn digest_hex_agrees_with_reference_implementation() {
    let data = b"the quick brown fox".to_vec();
    let hex = digest_hex(&data);
    assert_eq!(String::from_utf8(hex).unwrap(), reference_hex(&data));
}

#[test]
fn digest_comparison_is_case_insensitive() {
    let expected = b"E3B0C442".to_vec();
    let actual = b"e3b0c442".to_vec();
    assert!(digest_matches(&expected, &actual));
    let wrong = b"e3b0c443".to_vec();
    assert!(!digest_matches(&wrong, &actual));
    let short = b"e3b0c44".to_vec();
    assert!(!digest_matches(&short, &actual));
}

#[test]
fn round_trip_digest_matches_direct_concatenation() {
    // Hashing the assembled output equals hashing a buffer built by
    // concatenating the same source chunks in id order by hand.
    let chunks = vec![
        Chunk { id: 1, data: b"world".to_vec() },
        Chunk { id: 0, data: b"hello ".to_vec() },
    ];
    let assembled = assemble(chunks);
    let mut direct: Vec<u8> = Vec::new();
    direct.extend_from_slice(b"hello ");
    direct.extend_from_slice(b"world");
    assert_eq!(digest_hex(&assembled), digest_hex(&direct));
}

#[test]
fn finish_run_reports_match_and_keeps_errors() {
    let mut agg = Aggregator::new();
    agg.record_chunk(Chunk { id: 1, data: b"b".to_vec() });
    agg.record_chunk(Chunk { id: 0, data: b"a".to_vec() });
    agg.append_error(2, String::from("late failure"));
    let expected = reference_hex(b"ab").into_bytes();
    let outcome = finish_run(agg, Some(&expected));
    assert_eq!(outcome.assembled, b"ab".to_vec());
    assert_eq!(outcome.checksum_matched, Some(true));
    assert_eq!(outcome.errors.len(), 1);
    assert_eq!(outcome.errors[0].chunk_id, 2);
}

#[test]
fn finish_run_reports_mismatch_without_discarding_output() {
    let mut agg = Aggregator::new();
    agg.record_chunk(Chunk { id: 0, data: b"data".to_vec() });
    let wrong = b"0000000000000000000000000000000000000000000000000000000000000000".to_vec();
    let outcome = finish_run(agg, Some(&wrong));
    assert_eq!(outcome.checksum_matched, Some(false));
    assert_eq!(outcome.assembled, b"data".to_vec());
}

#[test]
fn finish_run_without_expected_digest_checks_nothing() {
    let agg = Aggregator::new();
    let outcome = finish_run(agg, None);
    assert_eq!(outcome.checksum_matched, None);
    assert!(outcome.assembled.is_empty());
}

/// The server of this scenario: 10 bytes for chunk 0, 10 bytes for chunk 1,
/// and the invalid-range marker for everything beyond.
fn scripted_server(chunk_id: usize) -> Vec<u8> {
    match chunk_id {
        0 => b"HTTP/1.1 206 OK\r\n\r\n0123456789".to_vec(),
        1 => b"HTTP/1.1 206 OK\r\n\r\nabcdefghij".to_vec(),
        _ => b"HTTP/1.1 400 Invalid range: out of bounds\r\n\r\n".to_vec(),
    }
}

#[test]
fn full_run_two_chunks_then_eof() {
    // chunk_size = 10, concurrency = 2: the run captures 20 bytes over two
    // rounds, logs no error, and the digest equals sha256(chunk0 || chunk1).
    let concurrency = 2;
    let mut agg = Aggregator::new();
    let mut sched = Scheduler::new();
    let mut rounds = 0;
    while !sched.eof {
        rounds += 1;
        assert!(rounds <= 10, "scheduling failed to terminate");
        let ids = sched.round_ids(concurrency, &agg);
        let mut round_eof = false;
        for id in ids {
            let raw = scripted_server(id);
            let resp = parse_response(&raw);
            let outcomes = vec![FetchOutcome::Success { headers: resp.headers, body: resp.body }];
            let (w, _) = run_worker(id, outcomes, &mut agg, 2);
            if w.status == WorkerStatus::EofSignaled {
                round_eof = true;
            }
        }
        sched.after_round(concurrency, 3, round_eof, &agg);
    }
    assert_eq!(rounds, 2);
    let expected = reference_hex(b"0123456789abcdefghij").into_bytes();
    let outcome = finish_run(agg, Some(&expected));
    assert_eq!(outcome.assembled.len(), 20);
    assert!(outcome.errors.is_empty());
    assert_eq!(outcome.checksum_matched, Some(true));
    assert_eq!(
        String::from_utf8(outcome.digest_hex).unwrap(),
        reference_hex(b"0123456789abcdefghij")
    );
}

#[test]
fn batch_retry_covers_only_missing_ids_then_force_advances() {
    // Chunk 0 fails every attempt; chunk 1 succeeds in the first round. The
    // following rounds retry only chunk 0, and after max_batch_retries = 3
    // retries the cursor force-advances past it.
    let concurrency = 2;
    let mut agg = Aggregator::new();
    let mut sched = Scheduler::new();

    let first_ids = sched.round_ids(concurrency, &agg);
    assert_eq!(first_ids, vec![0, 1]);
    for id in first_ids {
        if id == 0 {
            let outcomes = vec![
                FetchOutcome::Failure { message: String::from("down") },
                FetchOutcome::Failure { message: String::from("down") },
                FetchOutcome::Failure { message: String::from("down") },
            ];
            let (w, _) = run_worker(id, outcomes, &mut agg, 2);
            assert_eq!(w.status, WorkerStatus::Failed);
        } else {
            let outcomes =
                vec![FetchOutcome::Success { headers: ok_headers(), body: b"ok".to_vec() }];
            let (w, _) = run_worker(id, outcomes, &mut agg, 2);
            assert_eq!(w.status, WorkerStatus::Success);
        }
    }
    sched.after_round(concurrency, 3, false, &agg);
    assert_eq!(sched.cursor, 0);
    assert_eq!(sched.batch_retry_count, 1);

    for retry in 2..=3u32 {
        let ids = sched.round_ids(concurrency, &agg);
        assert_eq!(ids, vec![0], "a retried round assigns only the missing id");
        sched.after_round(concurrency, 3, false, &agg);
        assert_eq!(sched.cursor, 0);
        assert_eq!(sched.batch_retry_count, retry);
    }

    let ids = sched.round_ids(concurrency, &agg);
    assert_eq!(ids, vec![0]);
    sched.after_round(concurrency, 3, false, &agg);
    assert_eq!(sched.cursor, 2, "retries spent: the cursor force-advances");
    assert_eq!(sched.batch_retry_count, 0);

    // The run went on without chunk 0: its data is simply missing.
    let outcome = finish_run(agg, None);
    assert_eq!(outcome.assembled, b"ok".to_vec());
    assert_eq!(outcome.errors.len(), 3);
}
