//! End-to-end scenarios: tap in, verified log out.
use sentinel::audit::verify_audit_lines;
use sentinel::crypto::ed25519_derive_pub;
use sentinel::events::{RawTap, Sequencer, StreamDirection};
use sentinel::parser::Parser;
use sentinel::records::{AuditRecord, parse_record};
use sentinel::sink::AuditSink;

fn tap(direction: StreamDirection, s: &str, ts: u64) -> RawTap {
    RawTap { direction, bytes: s.as_bytes().to_vec(), observed_ts_ms: ts }
}

/// Runs taps through sequencer, parser and a plaintext signing sink;
/// returns the file lines.
fn run_pipeline(taps: Vec<RawTap>, checkpoint_every: u64, seed: &[u8]) -> Vec<Vec<u8>> {
    let run_id = b"run-test".to_vec();
    let mut seq = Sequencer::new();
    let mut parser = Parser::new(run_id.clone(), b"sess".to_vec(), b"trace".to_vec());
    let mut sink = AuditSink::open_plain(run_id, checkpoint_every, Some(seed.to_vec()));
    let mut lines: Vec<Vec<u8>> = Vec::new();
    let mut now: u64 = 1000;
    for t in taps {
        let ev = seq.assign(t);
        now += 5;
        if let Some(log) = parser.process_tap(&ev, now) {
            for line in sink.append_event(log, now).expect("record fits") {
                lines.push(line);
            }
        }
    }
    if let Some(final_cp) = sink.finalize(now) {
        lines.push(final_cp);
    }
    lines
}

fn record_kinds(lines: &[Vec<u8>]) -> Vec<String> {
    lines
        .iter()
        .map(|l| match parse_record(l).expect("line parses") {
            AuditRecord::Event { .. } => "Event".to_string(),
            AuditRecord::Checkpoint { .. } => "Checkpoint".to_string(),
        })
        .collect()
}

#[test]
fn single_call_writes_two_events_and_two_checkpoints() {
    let seed = [7u8; 32];
    let lines = run_pipeline(
        vec![
            tap(StreamDirection::Outbound, "{\"jsonrpc\":\"2.0\",\"id\":1,\"method\":\"ping\"}", 1),
            tap(StreamDirection::Inbound, "{\"jsonrpc\":\"2.0\",\"id\":1,\"result\":{}}", 2),
        ],
        1,
        &seed,
    );
    assert_eq!(record_kinds(&lines), ["Event", "Checkpoint", "Event", "Checkpoint", "Checkpoint"]);
    match parse_record(&lines[0]).unwrap() {
        AuditRecord::Event { log, .. } => {
            assert_eq!(log.event_id, 1);
            assert_eq!(log.method.as_deref(), Some(b"ping".as_slice()));
            assert_eq!(log.request_id, Some(1));
            assert_eq!(log.latency_ms, None);
        },
        _ => panic!("expected event"),
    }
    match parse_record(&lines[2]).unwrap() {
        AuditRecord::Event { log, .. } => {
            assert_eq!(log.event_id, 2);
            assert_eq!(log.method, None);
            assert!(log.latency_ms.is_some());
        },
        _ => panic!("expected event"),
    }
    // both trailing checkpoints cover event 2
    for line in [&lines[3], &lines[4]] {
        match parse_record(line).unwrap() {
            AuditRecord::Checkpoint { last_event_id, .. } => assert_eq!(last_event_id, 2),
            _ => panic!("expected checkpoint"),
        }
    }
    let pubkey = ed25519_derive_pub(&seed.to_vec());
    let state = verify_audit_lines(&lines, &pubkey).expect("log verifies");
    assert_eq!(state.events, 2);
    assert_eq!(state.checkpoints, 3);
}

#[test]
fn notification_writes_one_event_without_request_id() {
    let seed = [7u8; 32];
    let lines = run_pipeline(
        vec![tap(
            StreamDirection::Outbound,
            "{\"jsonrpc\":\"2.0\",\"method\":\"progress\",\"params\":{\"p\":1}}",
            1,
        )],
        1000,
        &seed,
    );
    // one event plus the final checkpoint
    assert_eq!(record_kinds(&lines), ["Event", "Checkpoint"]);
    match parse_record(&lines[0]).unwrap() {
        AuditRecord::Event { log, .. } => {
            assert_eq!(log.method.as_deref(), Some(b"progress".as_slice()));
            assert_eq!(log.request_id, None);
            assert_eq!(log.latency_ms, None);
        },
        _ => panic!("expected event"),
    }
}

#[test]
fn out_of_order_responses_attach_latency_to_the_right_span() {
    let seed = [9u8; 32];
    let lines = run_pipeline(
        vec![
            tap(StreamDirection::Outbound, "{\"jsonrpc\":\"2.0\",\"id\":1,\"method\":\"a\"}", 1),
            tap(StreamDirection::Outbound, "{\"jsonrpc\":\"2.0\",\"id\":2,\"method\":\"b\"}", 2),
            tap(StreamDirection::Inbound, "{\"jsonrpc\":\"2.0\",\"id\":2,\"result\":1}", 3),
            tap(StreamDirection::Inbound, "{\"jsonrpc\":\"2.0\",\"id\":1,\"result\":2}", 4),
        ],
        1000,
        &seed,
    );
    assert_eq!(record_kinds(&lines), ["Event", "Event", "Event", "Event", "Checkpoint"]);
    let mut spans = Vec::new();
    let mut ids = Vec::new();
    for line in &lines[..4] {
        match parse_record(line).unwrap() {
            AuditRecord::Event { log, .. } => {
                ids.push(log.event_id);
                spans.push(log.span_id.clone());
                if log.event_id >= 3 {
                    assert!(log.latency_ms.is_some(), "responses carry latency");
                }
            },
            _ => panic!("expected event"),
        }
    }
    assert_eq!(ids, [1, 2, 3, 4]);
    // response to id=2 reuses the span of request id=2, and so on
    assert_eq!(spans[2], spans[1]);
    assert_eq!(spans[3], spans[0]);
    let pubkey = ed25519_derive_pub(&vec![9u8; 32]);
    assert!(verify_audit_lines(&lines, &pubkey).is_ok());
}

#[test]
fn latency_is_now_minus_start() {
    let run_id = b"r".to_vec();
    let mut parser = Parser::new(run_id, b"s".to_vec(), b"t".to_vec());
    let mut seq = Sequencer::new();
    let ev1 = seq.assign(tap(StreamDirection::Outbound, "{\"id\":4,\"method\":\"m\"}", 0));
    let log1 = parser.process_tap(&ev1, 100).expect("request logged");
    assert_eq!(log1.latency_ms, None);
    let ev2 = seq.assign(tap(StreamDirection::Inbound, "{\"id\":4,\"result\":null}", 0));
    let log2 = parser.process_tap(&ev2, 175).expect("response logged");
    assert_eq!(log2.latency_ms, Some(75));
    assert_eq!(log2.span_id, log1.span_id);
}

#[test]
fn non_json_taps_are_dropped() {
    let run_id = b"r".to_vec();
    let mut parser = Parser::new(run_id, b"s".to_vec(), b"t".to_vec());
    let mut seq = Sequencer::new();
    let ev = seq.assign(tap(StreamDirection::Outbound, "not json at all", 0));
    assert!(parser.process_tap(&ev, 1).is_none());
    // a JSON value that is not a request or response is dropped too
    let ev2 = seq.assign(tap(StreamDirection::Outbound, "{\"jsonrpc\":\"2.0\"}", 0));
    assert!(parser.process_tap(&ev2, 2).is_none());
    // a request seen inbound is dropped
    let ev3 = seq.assign(tap(StreamDirection::Inbound, "{\"method\":\"x\"}", 0));
    assert!(parser.process_tap(&ev3, 3).is_none());
}

#[test]
fn sequencer_assigns_dense_ids_in_order() {
    let mut seq = Sequencer::new();
    for expected in 1..=5u64 {
        let ev = seq.assign(tap(StreamDirection::Outbound, "{}", 0));
        assert_eq!(ev.event_id, expected);
    }
}

#[test]
fn chain_links_and_ids_are_contiguous_in_written_log() {
    let seed = [3u8; 32];
    let lines = run_pipeline(
        vec![
            tap(StreamDirection::Outbound, "{\"id\":1,\"method\":\"x\"}", 1),
            tap(StreamDirection::Outbound, "{\"id\":2,\"method\":\"y\"}", 2),
            tap(StreamDirection::Outbound, "{\"id\":3,\"method\":\"z\"}", 3),
        ],
        1000,
        &seed,
    );
    let mut prev_entry: Option<Vec<u8>> = None;
    let mut next_id = 1u64;
    for line in &lines {
        if let AuditRecord::Event { log, integrity } = parse_record(line).unwrap() {
            assert_eq!(log.event_id, next_id, "ids are 1, 2, 3, ...");
            next_id += 1;
            if let Some(prev) = &prev_entry {
                assert_eq!(&integrity.prev_hash_b64, prev, "prev_hash links to entry_hash");
            }
            prev_entry = Some(integrity.entry_hash_b64.clone());
        }
    }
    assert_eq!(next_id, 4);
}

#[test]
fn shutdown_seal_is_a_checkpoint_for_the_last_event() {
    let seed = [5u8; 32];
    let lines = run_pipeline(
        vec![
            tap(StreamDirection::Outbound, "{\"id\":1,\"method\":\"x\"}", 1),
            tap(StreamDirection::Outbound, "{\"id\":2,\"method\":\"y\"}", 2),
        ],
        1000,
        &seed,
    );
    let last = lines.last().unwrap();
    match parse_record(last).unwrap() {
        AuditRecord::Checkpoint { last_event_id, .. } => assert_eq!(last_event_id, 2),
        _ => panic!("last record must be a checkpoint"),
    }
}

#[test]
fn finalize_without_events_writes_nothing() {
    let sink = AuditSink::open_plain(b"r".to_vec(), 10, Some(vec![1u8; 32]));
    assert!(sink.finalize(0).is_none());
}
