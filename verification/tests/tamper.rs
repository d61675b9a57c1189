//! Tamper detection and verifier rule ordering.
use sentinel::audit::verify_audit_lines;
use sentinel::crypto::ed25519_derive_pub;
use sentinel::errors::AuditError;
use sentinel::events::{RawTap, Sequencer, StreamDirection};
use sentinel::parser::Parser;
use sentinel::records::{AuditRecord, key_id_from_pubkey, parse_record};
use sentinel::sink::AuditSink;

fn tap(direction: StreamDirection, s: &str, ts: u64) -> RawTap {
    RawTap { direction, bytes: s.as_bytes().to_vec(), observed_ts_ms: ts }
}

fn run_pipeline(taps: Vec<RawTap>, checkpoint_every: u64, seed: &[u8]) -> Vec<Vec<u8>> {
    let run_id = b"run-test".to_vec();
    let mut seq = Sequencer::new();
    let mut parser = Parser::new(run_id.clone(), b"sess".to_vec(), b"trace".to_vec());
    let mut sink = AuditSink::open_plain(run_id, checkpoint_every, Some(seed.to_vec()));
    let mut lines: Vec<Vec<u8>> = Vec::new();
    let mut now: u64 = 1000;
    for t in taps {
        let ev = seq.assign(t);
        now += 5;
        if let Some(log) = parser.process_tap(&ev, now) {
            for line in sink.append_event(log, now).expect("record fits") {
                lines.push(line);
            }
        }
    }
    if let Some(final_cp) = sink.finalize(now) {
        lines.push(final_cp);
    }
    lines
}

fn scenario_one(seed: &[u8]) -> Vec<Vec<u8>> {
    run_pipeline(
        vec![
            tap(StreamDirection::Outbound, "{\"jsonrpc\":\"2.0\",\"id\":1,\"method\":\"ping\"}", 1),
            tap(StreamDirection::Inbound, "{\"jsonrpc\":\"2.0\",\"id\":1,\"result\":{}}", 2),
        ],
        1,
        seed,
    )
}

/// Flips one base64 character of the named field's value in a line.
fn flip_field_char(line: &mut Vec<u8>, field: &str) {
    let text = String::from_utf8(line.clone()).unwrap();
    let marker = format!("\"{field}\":\"");
    let start = text.find(&marker).expect("field present") + marker.len();
    let old = line[start];
    line[start] = if old == b'A' { b'B' } else { b'A' };
    assert_ne!(line[start], old, "the flip changed the byte");
}

#[test]
fn tampered_entry_hash_fails_at_line_one() {
    let seed = [7u8; 32];
    let mut lines = scenario_one(&seed);
    flip_field_char(&mut lines[0], "entry_hash_b64");
    let pubkey = ed25519_derive_pub(&seed.to_vec());
    let err = verify_audit_lines(&lines, &pubkey).expect_err("tampered log must fail");
    assert_eq!(err.kind, AuditError::ChainMismatch);
    assert_eq!(err.line, 1);
}

#[test]
fn any_byte_flip_in_an_event_is_detected() {
    let seed = [7u8; 32];
    let lines = scenario_one(&seed);
    let pubkey = ed25519_derive_pub(&seed.to_vec());
    // flip every byte of the first event's line in turn; records are
    // written in one canonical form and every integrity field is
    // checked, so no byte can change without being noticed
    for pos in 0..lines[0].len() {
        let mut tampered = lines.clone();
        tampered[0][pos] ^= 0x01;
        assert!(
            verify_audit_lines(&tampered, &pubkey).is_err(),
            "byte flip at offset {pos} must be detected"
        );
    }
}

#[test]
fn wrong_key_fails_with_key_id_mismatch_before_signature_checking() {
    let seed = [7u8; 32];
    let lines = scenario_one(&seed);
    let other_pub = ed25519_derive_pub(&vec![8u8; 32]);
    let err = verify_audit_lines(&lines, &other_pub).expect_err("wrong key must fail");
    assert_eq!(err.kind, AuditError::KeyIdMismatch);
}

#[test]
fn key_rotation_is_detectable_from_the_first_checkpoint() {
    let seed_a = [7u8; 32];
    let lines = scenario_one(&seed_a);
    // the runtime precheck: read the first checkpoint's key id and
    // compare it with the current key's
    let first_cp_key_id = lines
        .iter()
        .find_map(|l| match parse_record(l) {
            Some(AuditRecord::Checkpoint { key_id, .. }) => Some(key_id),
            _ => None,
        })
        .expect("a checkpoint exists");
    let same = key_id_from_pubkey(&ed25519_derive_pub(&seed_a.to_vec()));
    let rotated = key_id_from_pubkey(&ed25519_derive_pub(&vec![8u8; 32]));
    assert_eq!(first_cp_key_id, same, "the original key may append");
    assert_ne!(first_cp_key_id, rotated, "a rotated key is rejected before any append");
}

#[test]
fn id_gap_is_reported() {
    let seed = [7u8; 32];
    let lines = run_pipeline(
        vec![
            tap(StreamDirection::Outbound, "{\"id\":1,\"method\":\"x\"}", 1),
            tap(StreamDirection::Outbound, "{\"id\":2,\"method\":\"y\"}", 2),
            tap(StreamDirection::Outbound, "{\"id\":3,\"method\":\"z\"}", 3),
        ],
        1000,
        &seed,
    );
    // drop the middle event: the chain breaks before the id check can
    // even fire, so removing a line yields ChainMismatch
    let mut cut = lines.clone();
    cut.remove(1);
    let pubkey = ed25519_derive_pub(&seed.to_vec());
    let err = verify_audit_lines(&cut, &pubkey).expect_err("a removed record must be detected");
    assert_eq!(err.kind, AuditError::ChainMismatch);
    assert_eq!(err.line, 2);
}

#[test]
fn empty_and_checkpointless_logs_are_rejected() {
    let seed = [7u8; 32];
    let pubkey = ed25519_derive_pub(&seed.to_vec());
    let err = verify_audit_lines(&Vec::new(), &pubkey).expect_err("empty log");
    assert_eq!(err.kind, AuditError::EmptyLog);

    // events but no checkpoint: run without a signing key
    let run_id = b"run-test".to_vec();
    let mut seq = Sequencer::new();
    let mut parser = Parser::new(run_id.clone(), b"s".to_vec(), b"t".to_vec());
    let mut sink = AuditSink::open_plain(run_id, 1000, None);
    let ev = seq.assign(tap(StreamDirection::Outbound, "{\"id\":1,\"method\":\"x\"}", 1));
    let log = parser.process_tap(&ev, 5).unwrap();
    let mut lines = Vec::new();
    for line in sink.append_event(log, 5).expect("record fits") {
        lines.push(line);
    }
    assert!(sink.finalize(6).is_none(), "no signing key, no checkpoint");
    let err = verify_audit_lines(&lines, &pubkey).expect_err("checkpointless log");
    assert_eq!(err.kind, AuditError::MissingCheckpoint);
}

#[test]
fn garbage_lines_are_serialization_errors() {
    let seed = [7u8; 32];
    let mut lines = scenario_one(&seed);
    lines.insert(0, b"this is not a record".to_vec());
    let pubkey = ed25519_derive_pub(&seed.to_vec());
    let err = verify_audit_lines(&lines, &pubkey).expect_err("garbage must fail");
    assert_eq!(err.kind, AuditError::SerializationError);
    assert_eq!(err.line, 1);
}

#[test]
fn blank_lines_are_tolerated() {
    let seed = [7u8; 32];
    let mut lines = scenario_one(&seed);
    lines.insert(0, b"   ".to_vec());
    lines.push(Vec::new());
    let pubkey = ed25519_derive_pub(&seed.to_vec());
    assert!(verify_audit_lines(&lines, &pubkey).is_ok());
}

#[test]
fn run_id_mismatch_is_reported() {
    let seed = [7u8; 32];
    let pubkey = ed25519_derive_pub(&seed.to_vec());
    let mut make_run = |run_id: &[u8]| -> Vec<Vec<u8>> {
        let mut seq = Sequencer::new();
        let mut parser = Parser::new(run_id.to_vec(), b"s".to_vec(), b"t".to_vec());
        let mut sink = AuditSink::open_plain(run_id.to_vec(), 1, Some(seed.to_vec()));
        let ev = seq.assign(tap(StreamDirection::Outbound, "{\"id\":1,\"method\":\"x\"}", 1));
        let log = parser.process_tap(&ev, 5).unwrap();
        sink.append_event(log, 5).expect("record fits")
    };
    let run_a = make_run(b"run-a");
    let run_b = make_run(b"run-b");
    // a record of another run after run A's first event: run binding
    // fires before any chain comparison
    let lines = vec![run_a[0].clone(), run_b[0].clone()];
    let err = verify_audit_lines(&lines, &pubkey).expect_err("mixed runs must fail");
    assert_eq!(err.kind, AuditError::RunIdMismatch);
    assert_eq!(err.line, 2);
}
