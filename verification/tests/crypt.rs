//! Envelope encryption: round trips, wrong keys, swapped records.
use sentinel::audit::{decrypt_audit_lines, is_encrypted_log, verify_audit_lines};
use sentinel::crypto::{
    blake3_hash, ed25519_derive_pub, ed25519_pub_decodable, ed25519_sign, ed25519_verify,
    random_bytes, sha256_hash, x25519_derive_pub, x25519_shared,
};
use sentinel::envelope::{
    build_envelope, decrypt_record, encrypt_record_line, encrypted_to_line, parse_encrypted,
    unwrap_envelope,
};
use sentinel::errors::AuditError;
use sentinel::events::{RawTap, Sequencer, StreamDirection};
use sentinel::parser::Parser;
use sentinel::records::recipient_key_id;
use sentinel::sink::AuditSink;

fn tap(direction: StreamDirection, s: &str, ts: u64) -> RawTap {
    RawTap { direction, bytes: s.as_bytes().to_vec(), observed_ts_ms: ts }
}

/// Runs the out-of-order scenario through an encrypting sink.
fn encrypted_run(seed: &[u8], recipient_pub: &Vec<u8>) -> Vec<Vec<u8>> {
    let run_id = b"enc-run".to_vec();
    let mut seq = Sequencer::new();
    let mut parser = Parser::new(run_id.clone(), b"sess".to_vec(), b"trace".to_vec());
    let (mut sink, envelope_line) =
        AuditSink::open_encrypted(run_id, 2, Some(seed.to_vec()), recipient_pub);
    let mut lines = vec![envelope_line];
    let taps = vec![
        tap(StreamDirection::Outbound, "{\"jsonrpc\":\"2.0\",\"id\":1,\"method\":\"a\"}", 1),
        tap(StreamDirection::Outbound, "{\"jsonrpc\":\"2.0\",\"id\":2,\"method\":\"b\"}", 2),
        tap(StreamDirection::Inbound, "{\"jsonrpc\":\"2.0\",\"id\":2,\"result\":1}", 3),
        tap(StreamDirection::Inbound, "{\"jsonrpc\":\"2.0\",\"id\":1,\"result\":2}", 4),
    ];
    let mut now = 1000u64;
    for t in taps {
        let ev = seq.assign(t);
        now += 5;
        if let Some(log) = parser.process_tap(&ev, now) {
            for line in sink.append_event(log, now).expect("record fits") {
                lines.push(line);
            }
        }
    }
    if let Some(cp) = sink.finalize(now) {
        lines.push(cp);
    }
    lines
}

#[test]
fn encrypted_round_trip_verifies_with_the_right_recipient() {
    let seed = [7u8; 32];
    let sk = random_bytes(32);
    let pk = x25519_derive_pub(&sk);
    let lines = encrypted_run(&seed, &pk);
    assert!(is_encrypted_log(&lines));
    let plain = decrypt_audit_lines(&lines, &sk).expect("right key decrypts");
    let pubkey = ed25519_derive_pub(&seed.to_vec());
    let state = verify_audit_lines(&plain, &pubkey).expect("decrypted log verifies");
    assert_eq!(state.events, 4);
}

#[test]
fn wrong_recipient_key_fails_with_crypto_failure() {
    let seed = [7u8; 32];
    let sk = random_bytes(32);
    let pk = x25519_derive_pub(&sk);
    let lines = encrypted_run(&seed, &pk);
    let wrong_sk = random_bytes(32);
    let err = decrypt_audit_lines(&lines, &wrong_sk).expect_err("wrong key must fail");
    assert_eq!(err.kind, AuditError::CryptoFailure);
}

#[test]
fn plaintext_log_is_not_detected_as_encrypted() {
    let lines = vec![b"{\"record_type\":\"Event\"}".to_vec()];
    assert!(!is_encrypted_log(&lines));
}

#[test]
fn envelope_unwraps_only_for_its_recipient() {
    let sk = random_bytes(32);
    let pk = x25519_derive_pub(&sk);
    let dek = random_bytes(32);
    let run_id = b"r1".to_vec();
    let env = build_envelope(&run_id, &pk, &dek);
    assert_eq!(env.recipient_key_id, recipient_key_id(&pk));
    assert_eq!(unwrap_envelope(&env, &sk).expect("recipient can unwrap"), dek);
    let other = random_bytes(32);
    assert!(unwrap_envelope(&env, &other).is_err());
}

#[test]
fn swapped_ciphertexts_fail_to_decrypt() {
    let dek = random_bytes(32);
    let run_id = b"r1".to_vec();
    let n1 = random_bytes(12);
    let n2 = random_bytes(12);
    let r1 = encrypt_record_line(&dek, &run_id, &b"Event".to_vec(), &b"line one".to_vec(), &n1);
    let r2 = encrypt_record_line(&dek, &run_id, &b"Event".to_vec(), &b"line two".to_vec(), &n2);
    // swapping the ciphertexts pairs each with the other's nonce
    let mut s1 = parse_encrypted(&encrypted_to_line(&r1)).unwrap();
    let s2 = parse_encrypted(&encrypted_to_line(&r2)).unwrap();
    s1.ciphertext_b64 = s2.ciphertext_b64.clone();
    assert!(decrypt_record(&s1, &dek).is_err(), "nonce and ciphertext no longer match");
}

#[test]
fn aad_binds_records_to_their_run_and_type() {
    let dek = random_bytes(32);
    let nonce = random_bytes(12);
    let line = b"some record line".to_vec();
    let rec = encrypt_record_line(&dek, &b"run-a".to_vec(), &b"Event".to_vec(), &line, &nonce);
    assert_eq!(decrypt_record(&rec, &dek).expect("own parameters decrypt"), line);
    // the same sealed bytes under another run fail
    let mut other_run = parse_encrypted(&encrypted_to_line(&rec)).unwrap();
    other_run.run_id = b"run-b".to_vec();
    assert!(decrypt_record(&other_run, &dek).is_err(), "the aad covers the run id");
    // and under another inner type they fail too
    let mut other_type = parse_encrypted(&encrypted_to_line(&rec)).unwrap();
    other_type.inner_type = b"Checkpoint".to_vec();
    assert!(decrypt_record(&other_type, &dek).is_err(), "the aad covers the inner type");
}

#[test]
fn diffie_hellman_agrees_from_both_sides() {
    let a = random_bytes(32);
    let b = random_bytes(32);
    let pa = x25519_derive_pub(&a);
    let pb = x25519_derive_pub(&b);
    assert_eq!(x25519_shared(&a, &pb), x25519_shared(&b, &pa));
}

#[test]
fn signatures_verify_only_under_the_signing_key() {
    let seed = vec![42u8; 32];
    let msg = b"a message".to_vec();
    let sig = ed25519_sign(&seed, &msg);
    assert_eq!(sig.len(), 64);
    let pk = ed25519_derive_pub(&seed);
    assert!(ed25519_verify(&pk, &msg, &sig));
    assert!(!ed25519_verify(&pk, &b"another message".to_vec(), &sig));
    let other_pk = ed25519_derive_pub(&vec![43u8; 32]);
    assert!(!ed25519_verify(&other_pk, &msg, &sig));
}

#[test]
fn digests_are_stable_and_not_the_input() {
    let data = b"input".to_vec();
    let h1 = blake3_hash(&data);
    let h2 = blake3_hash(&data);
    assert_eq!(h1, h2);
    assert_eq!(h1.len(), 32);
    assert_ne!(h1, blake3_hash(&b"inpux".to_vec()));
    // the exact SHA-256 of the empty string pins the digest wrapper
    let empty = sha256_hash(&Vec::new());
    assert_eq!(
        sentinel::codec::hex_encode(&empty),
        b"e3b0c44298fc1c149afbf4c8996fb92427ae41e4649b934ca495991b7852b855".to_vec()
    );
}

#[test]
fn recipient_key_id_is_hex_of_sha256_prefix() {
    assert_eq!(recipient_key_id(&Vec::new()), b"e3b0c44298fc".to_vec());
}

#[test]
fn verifying_keys_are_validated_as_curve_points() {
    // a derived public key always decodes
    let pk = ed25519_derive_pub(&vec![11u8; 32]);
    assert!(ed25519_pub_decodable(&pk));
    // many 32-byte strings are not valid keys; find one and check it
    // is rejected, and that it accepts no signature either
    let mut bad: Option<Vec<u8>> = None;
    for b in 0..=255u8 {
        let mut candidate = vec![0u8; 32];
        candidate[0] = b;
        if !ed25519_pub_decodable(&candidate) {
            bad = Some(candidate);
            break;
        }
    }
    let bad = bad.expect("some candidate is not a valid key");
    let sig = ed25519_sign(&vec![11u8; 32], &b"msg".to_vec());
    assert!(!ed25519_verify(&bad, &b"msg".to_vec(), &sig));
}

#[test]
fn a_first_line_with_another_type_tag_is_not_an_envelope() {
    let seed = [7u8; 32];
    let sk = random_bytes(32);
    let pk = x25519_derive_pub(&sk);
    let mut lines = encrypted_run(&seed, &pk);
    // rewrite the envelope's type tag: the log no longer counts as
    // encrypted, matching the format's pinned record_type
    let text = String::from_utf8(lines[0].clone()).unwrap();
    let tampered = text.replacen("KeyEnvelope", "KeyEnvelopf", 1);
    lines[0] = tampered.into_bytes();
    assert!(!is_encrypted_log(&lines));
}
