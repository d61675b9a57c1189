//! Record construction, hashing, key files, session tables and the
//! configuration rewrite.
use sentinel::config::{rewrite_config, ConfigError};
use sentinel::crypto::ed25519_derive_pub;
use sentinel::events::{McpLog, StreamDirection};
use sentinel::jtext::{parse_json, to_json_bytes};
use sentinel::parser::{classify_message, JsonRpcMessage};
use sentinel::records::{
    compute_entry_hash, key_id_from_pubkey, key_file_line, make_checkpoint_record,
    make_event_record, parse_key_b64, parse_record, record_to_line, signable_bytes, AuditRecord,
};
use sentinel::session::{SessionState, SessionTracker};

fn sample_log(payload: &str) -> McpLog {
    McpLog {
        run_id: b"run".to_vec(),
        event_id: 1,
        observed_ts_ms: 10,
        timestamp: 11,
        direction: StreamDirection::Outbound,
        method: Some(b"ping".to_vec()),
        request_id: Some(1),
        latency_ms: None,
        payload: parse_json(&payload.as_bytes().to_vec()).unwrap(),
        session_id: b"sess".to_vec(),
        trace_id: b"trace".to_vec(),
        span_id: b"span".to_vec(),
        parent_span_id: None,
    }
}

#[test]
fn entry_hash_is_deterministic_and_ignores_payload_key_order() {
    let prev = vec![0u8; 32];
    let l1 = sample_log("{\"b\":1,\"a\":{\"y\":2,\"x\":3}}");
    let l2 = sample_log("{\"a\":{\"x\":3,\"y\":2},\"b\":1}");
    let h1a = compute_entry_hash(&prev, &l1);
    let h1b = compute_entry_hash(&prev, &l1);
    assert_eq!(h1a, h1b, "the same log hashes identically");
    assert_eq!(h1a, compute_entry_hash(&prev, &l2), "member order does not matter");
    let l3 = sample_log("{\"b\":2,\"a\":{\"y\":2,\"x\":3}}");
    assert_ne!(h1a, compute_entry_hash(&prev, &l3), "a changed value changes the hash");
    let other_prev = vec![1u8; 32];
    assert_ne!(h1a, compute_entry_hash(&other_prev, &l1), "the previous hash is covered");
}

#[test]
fn signable_bytes_have_the_fixed_field_order() {
    let l = sample_log("{\"b\":1,\"a\":2}");
    let s = String::from_utf8(signable_bytes(&l)).unwrap();
    assert_eq!(
        s,
        "{\"run_id\":\"run\",\"event_id\":1,\"observed_ts_ms\":10,\"timestamp\":11,\
         \"direction\":\"Outbound\",\"method\":\"ping\",\"request_id\":1,\"latency_ms\":null,\
         \"payload\":{\"a\":2,\"b\":1},\"session_id\":\"sess\",\"trace_id\":\"trace\",\
         \"span_id\":\"span\",\"parent_span_id\":null}"
    );
}

#[test]
fn event_records_round_trip_through_their_line() {
    let prev = vec![0u8; 32];
    let (rec, hash) = make_event_record(&prev, sample_log("{\"k\":true}"));
    assert_eq!(hash.len(), 32);
    let line = record_to_line(&rec);
    match parse_record(&line).expect("own lines parse") {
        AuditRecord::Event { log, integrity } => {
            assert_eq!(log.event_id, 1);
            assert_eq!(integrity.hash_alg, b"blake3".to_vec());
            assert_eq!(integrity.version, 1);
        },
        _ => panic!("expected an event"),
    }
}

#[test]
fn checkpoint_records_carry_key_id_and_algorithms() {
    let seed = vec![7u8; 32];
    let tip = vec![2u8; 32];
    let rec = make_checkpoint_record(&seed, &b"run".to_vec(), 5, 9, &tip);
    let line = record_to_line(&rec);
    match parse_record(&line).expect("own lines parse") {
        AuditRecord::Checkpoint { run_id, last_event_id, key_id, hash_alg, sig_alg, version, .. } => {
            assert_eq!(run_id, b"run".to_vec());
            assert_eq!(last_event_id, 9);
            assert_eq!(key_id, key_id_from_pubkey(&ed25519_derive_pub(&seed)));
            assert_eq!(hash_alg, b"blake3".to_vec());
            assert_eq!(sig_alg, b"ed25519".to_vec());
            assert_eq!(version, 1);
        },
        _ => panic!("expected a checkpoint"),
    }
}

#[test]
fn key_files_hold_32_base64_bytes_and_a_newline() {
    let key = vec![5u8; 32];
    let line = key_file_line(&key);
    assert_eq!(*line.last().unwrap(), b'\n');
    assert_eq!(parse_key_b64(&line).expect("own key files parse"), key);
    assert!(parse_key_b64(&b"too short".to_vec()).is_err());
    // 33 bytes of base64 are refused
    let wrong = key_file_line(&vec![5u8; 33]);
    assert!(parse_key_b64(&wrong).is_err());
    // surrounding whitespace is tolerated
    let mut padded = b"  ".to_vec();
    padded.extend_from_slice(&line);
    padded.extend_from_slice(b" \n");
    assert_eq!(parse_key_b64(&padded).expect("trimmed"), key);
}

#[test]
fn classify_distinguishes_requests_responses_and_noise() {
    let req = parse_json(&b"{\"method\":\"m\",\"id\":3}".to_vec()).unwrap();
    match classify_message(req).expect("a request") {
        JsonRpcMessage::Request(r) => {
            assert_eq!(r.method, b"m".to_vec());
            assert_eq!(r.id, Some(3));
        },
        _ => panic!("expected request"),
    }
    let notif = parse_json(&b"{\"method\":\"n\"}".to_vec()).unwrap();
    match classify_message(notif).expect("a notification") {
        JsonRpcMessage::Request(r) => assert_eq!(r.id, None),
        _ => panic!("expected request"),
    }
    let resp = parse_json(&b"{\"id\":3,\"result\":{}}".to_vec()).unwrap();
    match classify_message(resp).expect("a response") {
        JsonRpcMessage::Response(r) => assert_eq!(r.id, Some(3)),
        _ => panic!("expected response"),
    }
    let err_resp = parse_json(&b"{\"error\":{\"code\":1}}".to_vec()).unwrap();
    assert!(matches!(classify_message(err_resp), Some(JsonRpcMessage::Response(_))));
    // a bad id spoils the whole message
    let bad = parse_json(&b"{\"method\":\"m\",\"id\":\"x\"}".to_vec()).unwrap();
    assert!(classify_message(bad).is_none());
    // no method, result or error: not a message
    let noise = parse_json(&b"{\"jsonrpc\":\"2.0\"}".to_vec()).unwrap();
    assert!(classify_message(noise).is_none());
}

#[test]
fn from_message_projects_the_right_fields() {
    let req = parse_json(&b"{\"method\":\"m\",\"id\":3}".to_vec()).unwrap();
    let msg = classify_message(req).unwrap();
    let log = McpLog::from_message(
        b"run".to_vec(),
        4,
        10,
        StreamDirection::Outbound,
        msg,
        None,
        &b"sess".to_vec(),
        &b"trace".to_vec(),
        b"span".to_vec(),
        None,
        99,
    );
    assert_eq!(log.event_id, 4);
    assert_eq!(log.method, Some(b"m".to_vec()));
    assert_eq!(log.request_id, Some(3));
    assert_eq!(log.timestamp, 99);
}

#[test]
fn session_tracker_opens_and_closes_spans() {
    let mut tracker = SessionTracker::new();
    let span = tracker.start_span(1);
    assert_eq!(span.len(), 36);
    let (_, closed_span) = tracker.end_span(1).expect("span was open");
    assert_eq!(closed_span, span);
    assert!(tracker.end_span(1).is_none(), "closed spans stay closed");
    assert!(tracker.end_span(2).is_none(), "unknown ids have no span");
}

#[test]
fn session_state_matches_requests_and_expires_old_ones() {
    let mut state = SessionState::new();
    assert!(state.complete_request(1).is_none());
    state.record_request(1);
    assert!(state.complete_request(1).is_some());
    assert!(state.complete_request(1).is_none(), "completion removes the entry");
    state.record_request(2);
    state.clear_old_requests(3600);
    assert!(state.complete_request(2).is_some(), "recent requests survive the sweep");
    state.record_request(3);
    state.clear_old_requests(0);
    assert!(state.complete_request(3).is_none(), "a zero age sweeps everything");
}

#[test]
fn config_rewrite_moves_the_command_behind_run() {
    let config = parse_json(
        &b"{\"mcpServers\":{\"files\":{\"command\":\"npx\",\"args\":[\"server\",\"-v\"]}},\"other\":1}"
            .to_vec(),
    )
    .unwrap();
    let out = rewrite_config(&config, &b"files".to_vec(), &b"/usr/bin/sentinel".to_vec())
        .expect("rewrite succeeds");
    assert_eq!(
        String::from_utf8(to_json_bytes(&out)).unwrap(),
        "{\"mcpServers\":{\"files\":{\"command\":\"/usr/bin/sentinel\",\
         \"args\":[\"run\",\"--\",\"npx\",\"server\",\"-v\"]}},\"other\":1}"
    );
    match rewrite_config(&config, &b"missing".to_vec(), &b"p".to_vec()) {
        Err(e) => assert_eq!(e, ConfigError::ServerNotFound),
        Ok(_) => panic!("unknown server must be refused"),
    }
    let no_servers = parse_json(&b"{}".to_vec()).unwrap();
    match rewrite_config(&no_servers, &b"files".to_vec(), &b"p".to_vec()) {
        Err(e) => assert_eq!(e, ConfigError::MissingServers),
        Ok(_) => panic!("a document without servers must be refused"),
    }
}
