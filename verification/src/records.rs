//! Wire records of the audit log: `Event` and `Checkpoint`, their
//! JSON framing, the entry-hash rule and the checkpoint signature
//! preimage.
//!
//! A record has exactly one serialized form (the canonical JSON this
//! crate writes); `parse_record` accepts a line only if re-serializing
//! what it read reproduces the line byte for byte.
use vstd::prelude::*;

use crate::canon::canon;
use crate::canon::canonicalize_value;
use crate::codec::{b64_encode, b64_of, dec_of, hex_encode, hex_of, lemma_dec_of_val, parse_u64_dec, u64_to_dec};
use crate::crypto::{
    blake3_hash, blake3_of, ed25519_pub_of, ed25519_sig_of, ed25519_sign, sha256_hash, sha256_of,
};
use crate::events::{McpLog, McpLogV, StreamDirection, view_opt_bytes};
use crate::json::{num_token_ok, str_content_ok, wf_json, Jv, JsonValue};
use crate::jtext::{parse_json, ser_value, to_json_bytes};
use crate::names::{
    k_alg_blake3, k_alg_ed25519, k_checkpoint, k_created_ts_ms, k_direction, k_entry_hash_b64,
    k_event, k_event_id, k_hash_alg, k_inbound, k_integrity, k_key_id, k_last_entry_hash_b64,
    k_last_event_id, k_latency_ms, k_log, k_method, k_observed_ts_ms, k_outbound,
    k_parent_span_id, k_payload, k_prev_hash_b64, k_record_type, k_request_id, k_run_id,
    k_session_id, k_sig_alg, k_signature_b64, k_span_id, k_timestamp, k_trace_id, k_version,
    kb_alg_blake3, kb_alg_ed25519, kb_checkpoint, kb_created_ts_ms, kb_direction,
    kb_entry_hash_b64, kb_event, kb_event_id, kb_hash_alg, kb_inbound, kb_integrity, kb_key_id,
    kb_last_entry_hash_b64, kb_last_event_id, kb_latency_ms, kb_log, kb_method,
    kb_observed_ts_ms, kb_outbound, kb_parent_span_id, kb_payload, kb_prev_hash_b64,
    kb_record_type, kb_request_id, kb_run_id, kb_session_id, kb_sig_alg, kb_signature_b64,
    kb_span_id, kb_timestamp, kb_trace_id, kb_version,
};
use crate::order::{bytes_eq, copy_bytes};

verus! {

/// Integrity metadata attached to each event record.
pub struct IntegrityFields {
    pub prev_hash_b64: Vec<u8>,
    pub entry_hash_b64: Vec<u8>,
    pub hash_alg: Vec<u8>,
    pub version: u64,
}

pub struct IntegrityFieldsV {
    pub prev_hash_b64: Seq<u8>,
    pub entry_hash_b64: Seq<u8>,
    pub hash_alg: Seq<u8>,
    pub version: u64,
}

impl View for IntegrityFields {
    type V = IntegrityFieldsV;

    open spec fn view(&self) -> IntegrityFieldsV {
        IntegrityFieldsV {
            prev_hash_b64: self.prev_hash_b64@,
            entry_hash_b64: self.entry_hash_b64@,
            hash_alg: self.hash_alg@,
            version: self.version,
        }
    }
}

/// A line of the audit log.
pub enum AuditRecord {
    Event { log: McpLog, integrity: IntegrityFields },
    Checkpoint {
        run_id: Vec<u8>,
        created_ts_ms: u64,
        last_event_id: u64,
        last_entry_hash_b64: Vec<u8>,
        signature_b64: Vec<u8>,
        key_id: Vec<u8>,
        hash_alg: Vec<u8>,
        sig_alg: Vec<u8>,
        version: u64,
    },
}

pub enum AuditRecordV {
    Event { log: McpLogV, integrity: IntegrityFieldsV },
    Checkpoint {
        run_id: Seq<u8>,
        created_ts_ms: u64,
        last_event_id: u64,
        last_entry_hash_b64: Seq<u8>,
        signature_b64: Seq<u8>,
        key_id: Seq<u8>,
        hash_alg: Seq<u8>,
        sig_alg: Seq<u8>,
        version: u64,
    },
}

impl View for AuditRecord {
    type V = AuditRecordV;

    open spec fn view(&self) -> AuditRecordV {
        match self {
            AuditRecord::Event { log, integrity } => AuditRecordV::Event {
                log: log@,
                integrity: integrity@,
            },
            AuditRecord::Checkpoint {
                run_id,
                created_ts_ms,
                last_event_id,
                last_entry_hash_b64,
                signature_b64,
                key_id,
                hash_alg,
                sig_alg,
                version,
            } => AuditRecordV::Checkpoint {
                run_id: run_id@,
                created_ts_ms: *created_ts_ms,
                last_event_id: *last_event_id,
                last_entry_hash_b64: last_entry_hash_b64@,
                signature_b64: signature_b64@,
                key_id: key_id@,
                hash_alg: hash_alg@,
                sig_alg: sig_alg@,
                version: *version,
            },
        }
    }
}

pub open spec fn jv_u64(n: u64) -> Jv {
    Jv::Num(dec_of(n as nat))
}

pub open spec fn jv_opt_str(o: Option<Seq<u8>>) -> Jv {
    match o {
        Some(s) => Jv::Str(s),
        None => Jv::Null,
    }
}

pub open spec fn jv_opt_u64(o: Option<u64>) -> Jv {
    match o {
        Some(n) => jv_u64(n),
        None => Jv::Null,
    }
}

pub open spec fn jv_dir(d: StreamDirection) -> Jv {
    match d {
        StreamDirection::Inbound => Jv::Str(k_inbound()),
        StreamDirection::Outbound => Jv::Str(k_outbound()),
    }
}

/// The JSON object of a log record, with `p` in the payload position.
pub open spec fn log_jv_with(l: McpLogV, p: Jv) -> Jv {
    Jv::Obj(
        seq![
            (k_run_id(), Jv::Str(l.run_id)),
            (k_event_id(), jv_u64(l.event_id)),
            (k_observed_ts_ms(), jv_u64(l.observed_ts_ms)),
            (k_timestamp(), jv_u64(l.timestamp)),
            (k_direction(), jv_dir(l.direction)),
            (k_method(), jv_opt_str(l.method)),
            (k_request_id(), jv_opt_u64(l.request_id)),
            (k_latency_ms(), jv_opt_u64(l.latency_ms)),
            (k_payload(), p),
            (k_session_id(), Jv::Str(l.session_id)),
            (k_trace_id(), Jv::Str(l.trace_id)),
            (k_span_id(), Jv::Str(l.span_id)),
            (k_parent_span_id(), jv_opt_str(l.parent_span_id)),
        ],
    )
}

/// The log object as written into an `Event` line: the payload is
/// stored in canonical form, as the format requires.
pub open spec fn log_jv(l: McpLogV) -> Jv {
    log_jv_with(l, canon(l.payload))
}

/// The same record with its payload in canonical form; the written
/// object determines a record only up to this normalization.
pub open spec fn canon_log(l: McpLogV) -> McpLogV {
    McpLogV { payload: canon(l.payload), ..l }
}

pub open spec fn canon_rec(r: AuditRecordV) -> AuditRecordV {
    match r {
        AuditRecordV::Event { log, integrity } => AuditRecordV::Event {
            log: canon_log(log),
            integrity,
        },
        AuditRecordV::Checkpoint { .. } => r,
    }
}

/// The deterministic projection whose serialization is hashed:
/// the same fields, with the payload in canonical form.
pub open spec fn signable_jv(l: McpLogV) -> Jv {
    log_jv_with(l, canon(l.payload))
}

/// The signable bytes of a log record.
pub open spec fn signable_bytes_of(l: McpLogV) -> Seq<u8> {
    ser_value(signable_jv(l))
}

/// The hash-chain rule: the entry hash is blake3 over the previous
/// hash followed by the signable bytes.
pub open spec fn entry_hash_of(prev: Seq<u8>, l: McpLogV) -> Seq<u8> {
    blake3_of(prev + signable_bytes_of(l))
}

/// Little-endian bytes of a 64-bit id.
pub open spec fn u64_le_of(n: u64) -> Seq<u8> {
    seq![
        (n & 0xff) as u8,
        ((n >> 8u64) & 0xff) as u8,
        ((n >> 16u64) & 0xff) as u8,
        ((n >> 24u64) & 0xff) as u8,
        ((n >> 32u64) & 0xff) as u8,
        ((n >> 40u64) & 0xff) as u8,
        ((n >> 48u64) & 0xff) as u8,
        ((n >> 56u64) & 0xff) as u8,
    ]
}

/// The checkpoint signature preimage: blake3 over the run id, the
/// little-endian last event id, and the chain tip.  It binds a
/// signature to one run at one chain position.
pub open spec fn preimage_of(run_id: Seq<u8>, last_event_id: u64, tip: Seq<u8>) -> Seq<u8> {
    blake3_of(run_id + u64_le_of(last_event_id) + tip)
}

/// The short identifier of an Ed25519 verifying key: the first six
/// bytes of its blake3 hash, in hex.
pub open spec fn signing_key_id_of(pk: Seq<u8>) -> Seq<u8> {
    hex_of(blake3_of(pk).take(6))
}

/// The short identifier of an X25519 recipient key: the first six
/// bytes of its SHA-256 hash, in hex.
pub open spec fn recipient_key_id_of(pk: Seq<u8>) -> Seq<u8> {
    hex_of(sha256_of(pk).take(6))
}

/// Short, stable identifier auditors can refer to (not a security
/// boundary).
pub fn key_id_from_pubkey(pubkey: &Vec<u8>) -> (r: Vec<u8>)
    ensures
        r@ == signing_key_id_of(pubkey@),
        r@.len() == 12,
        str_content_ok(r@),
{
    let mut h = blake3_hash(pubkey);
    h.truncate(6);
    proof {
        assert(h@ =~= blake3_of(pubkey@).take(6));
    }
    let out = hex_encode(&h);
    proof {
        crate::codec::lemma_hex_of_plain(h@);
        crate::names::lemma_plain_str_ok(out@);
    }
    out
}

/// Short identifier of a recipient public key.
pub fn recipient_key_id(pubkey: &Vec<u8>) -> (r: Vec<u8>)
    ensures
        r@ == recipient_key_id_of(pubkey@),
        r@.len() == 12,
        str_content_ok(r@),
{
    let mut h = sha256_hash(pubkey);
    h.truncate(6);
    proof {
        assert(h@ =~= sha256_of(pubkey@).take(6));
    }
    let out = hex_encode(&h);
    proof {
        crate::codec::lemma_hex_of_plain(h@);
        crate::names::lemma_plain_str_ok(out@);
    }
    out
}

fn u64_le_bytes(n: u64) -> (r: Vec<u8>)
    ensures
        r@ == u64_le_of(n),
{
    let v: Vec<u8> = vec![
        (n & 0xff) as u8,
        ((n >> 8u64) & 0xff) as u8,
        ((n >> 16u64) & 0xff) as u8,
        ((n >> 24u64) & 0xff) as u8,
        ((n >> 32u64) & 0xff) as u8,
        ((n >> 40u64) & 0xff) as u8,
        ((n >> 48u64) & 0xff) as u8,
        ((n >> 56u64) & 0xff) as u8,
    ];
    proof {
        assert(v@ =~= u64_le_of(n));
    }
    v
}

/// The checkpoint signature preimage for the given chain position.
pub fn checkpoint_preimage(run_id: &Vec<u8>, last_event_id: u64, last_entry_hash: &Vec<u8>) -> (r:
    Vec<u8>)
    ensures
        r@ == preimage_of(run_id@, last_event_id, last_entry_hash@),
        r@.len() == 32,
{
    let mut data = copy_bytes(run_id);
    let le = u64_le_bytes(last_event_id);
    crate::jtext::push_bytes(&mut data, &le);
    crate::jtext::push_bytes(&mut data, last_entry_hash);
    proof {
        assert(data@ =~= run_id@ + u64_le_of(last_event_id) + last_entry_hash@);
    }
    blake3_hash(&data)
}

/// Builds the JSON object of a log record, with the payload in
/// canonical form; the written record and the signable projection
/// share this one shape.
fn build_log_json(l: &McpLog) -> (r: JsonValue)
    ensures
        r.deep_view() == log_jv(l@),
        r.deep_view() == signable_jv(l@),
{
    let mut m: Vec<(Vec<u8>, JsonValue)> = Vec::new();
    m.push((kb_run_id(), JsonValue::Str(copy_bytes(&l.run_id))));
    m.push((kb_event_id(), JsonValue::Num(u64_to_dec(l.event_id))));
    m.push((kb_observed_ts_ms(), JsonValue::Num(u64_to_dec(l.observed_ts_ms))));
    m.push((kb_timestamp(), JsonValue::Num(u64_to_dec(l.timestamp))));
    let dir = match l.direction {
        StreamDirection::Inbound => JsonValue::Str(kb_inbound()),
        StreamDirection::Outbound => JsonValue::Str(kb_outbound()),
    };
    m.push((kb_direction(), dir));
    let method = match &l.method {
        Some(s) => JsonValue::Str(copy_bytes(s)),
        None => JsonValue::Null,
    };
    m.push((kb_method(), method));
    let request_id = match &l.request_id {
        Some(n) => JsonValue::Num(u64_to_dec(*n)),
        None => JsonValue::Null,
    };
    m.push((kb_request_id(), request_id));
    let latency_ms = match &l.latency_ms {
        Some(n) => JsonValue::Num(u64_to_dec(*n)),
        None => JsonValue::Null,
    };
    m.push((kb_latency_ms(), latency_ms));
    m.push((kb_payload(), canonicalize_value(&l.payload)));
    m.push((kb_session_id(), JsonValue::Str(copy_bytes(&l.session_id))));
    m.push((kb_trace_id(), JsonValue::Str(copy_bytes(&l.trace_id))));
    m.push((kb_span_id(), JsonValue::Str(copy_bytes(&l.span_id))));
    let parent = match &l.parent_span_id {
        Some(s) => JsonValue::Str(copy_bytes(s)),
        None => JsonValue::Null,
    };
    m.push((kb_parent_span_id(), parent));
    let r = JsonValue::Obj(m);
    proof {
        let expect = signable_jv(l@);
        let rv = r.deep_view()->Obj_0;
        let ev = expect->Obj_0;
        assert forall|j: int| 0 <= j < rv.len() implies rv[j] == ev[j] by {
            assert(rv[j] == (m@[j].0@, m@[j].1.deep_view()));
        }
        assert(rv =~= ev);
        assert(r.deep_view() =~= expect);
        assert(log_jv(l@) == signable_jv(l@));
    }
    r
}

/// The signable bytes of a log record: the serialization of its
/// deterministic projection, with the payload canonicalized.
pub fn signable_bytes(log: &McpLog) -> (r: Vec<u8>)
    ensures
        r@ == signable_bytes_of(log@),
{
    let v = build_log_json(log);
    to_json_bytes(&v)
}

/// The hash-chain rule: `entry_hash = blake3(prev_hash || signable
/// bytes)`.
pub fn compute_entry_hash(prev_hash: &Vec<u8>, log: &McpLog) -> (r: Vec<u8>)
    ensures
        r@ == entry_hash_of(prev_hash@, log@),
        r@.len() == 32,
{
    let mut data = copy_bytes(prev_hash);
    let sb = signable_bytes(log);
    crate::jtext::push_bytes(&mut data, &sb);
    proof {
        assert(data@ =~= prev_hash@ + signable_bytes_of(log@));
    }
    blake3_hash(&data)
}

/// The JSON object of an integrity block.
pub open spec fn integrity_jv(i: IntegrityFieldsV) -> Jv {
    Jv::Obj(
        seq![
            (k_prev_hash_b64(), Jv::Str(i.prev_hash_b64)),
            (k_entry_hash_b64(), Jv::Str(i.entry_hash_b64)),
            (k_hash_alg(), Jv::Str(i.hash_alg)),
            (k_version(), jv_u64(i.version)),
        ],
    )
}

/// The JSON object of a whole record line.
pub open spec fn record_jv(r: AuditRecordV) -> Jv {
    match r {
        AuditRecordV::Event { log, integrity } => Jv::Obj(
            seq![
                (k_record_type(), Jv::Str(k_event())),
                (k_log(), log_jv(log)),
                (k_integrity(), integrity_jv(integrity)),
            ],
        ),
        AuditRecordV::Checkpoint {
            run_id,
            created_ts_ms,
            last_event_id,
            last_entry_hash_b64,
            signature_b64,
            key_id,
            hash_alg,
            sig_alg,
            version,
        } => Jv::Obj(
            seq![
                (k_record_type(), Jv::Str(k_checkpoint())),
                (k_run_id(), Jv::Str(run_id)),
                (k_created_ts_ms(), jv_u64(created_ts_ms)),
                (k_last_event_id(), jv_u64(last_event_id)),
                (k_last_entry_hash_b64(), Jv::Str(last_entry_hash_b64)),
                (k_signature_b64(), Jv::Str(signature_b64)),
                (k_key_id(), Jv::Str(key_id)),
                (k_hash_alg(), Jv::Str(hash_alg)),
                (k_sig_alg(), Jv::Str(sig_alg)),
                (k_version(), jv_u64(version)),
            ],
        ),
    }
}

/// The one serialized form of a record: its canonical JSON line
/// (without the trailing newline).
pub fn record_to_line(rec: &AuditRecord) -> (r: Vec<u8>)
    ensures
        r@ == ser_value(record_jv(rec@)),
{
    let v: JsonValue = match rec {
        AuditRecord::Event { log, integrity } => {
            let mut m: Vec<(Vec<u8>, JsonValue)> = Vec::new();
            m.push((kb_record_type(), JsonValue::Str(kb_event())));
            m.push((kb_log(), build_log_json(log)));
            let mut im: Vec<(Vec<u8>, JsonValue)> = Vec::new();
            im.push((kb_prev_hash_b64(), JsonValue::Str(copy_bytes(&integrity.prev_hash_b64))));
            im.push((kb_entry_hash_b64(), JsonValue::Str(copy_bytes(&integrity.entry_hash_b64))));
            im.push((kb_hash_alg(), JsonValue::Str(copy_bytes(&integrity.hash_alg))));
            im.push((kb_version(), JsonValue::Num(u64_to_dec(integrity.version))));
            let iv = JsonValue::Obj(im);
            proof {
                let rv = iv.deep_view()->Obj_0;
                let ev = integrity_jv(integrity@)->Obj_0;
                assert forall|j: int| 0 <= j < rv.len() implies rv[j] == ev[j] by {
                    assert(rv[j] == (im@[j].0@, im@[j].1.deep_view()));
                }
                assert(rv =~= ev);
                assert(iv.deep_view() =~= integrity_jv(integrity@));
            }
            m.push((kb_integrity(), iv));
            let out = JsonValue::Obj(m);
            proof {
                let rv = out.deep_view()->Obj_0;
                let ev = record_jv(rec@)->Obj_0;
                assert forall|j: int| 0 <= j < rv.len() implies rv[j] == ev[j] by {
                    assert(rv[j] == (m@[j].0@, m@[j].1.deep_view()));
                }
                assert(rv =~= ev);
                assert(out.deep_view() =~= record_jv(rec@));
            }
            out
        },
        AuditRecord::Checkpoint {
            run_id,
            created_ts_ms,
            last_event_id,
            last_entry_hash_b64,
            signature_b64,
            key_id,
            hash_alg,
            sig_alg,
            version,
        } => {
            let mut m: Vec<(Vec<u8>, JsonValue)> = Vec::new();
            m.push((kb_record_type(), JsonValue::Str(kb_checkpoint())));
            m.push((kb_run_id(), JsonValue::Str(copy_bytes(run_id))));
            m.push((kb_created_ts_ms(), JsonValue::Num(u64_to_dec(*created_ts_ms))));
            m.push((kb_last_event_id(), JsonValue::Num(u64_to_dec(*last_event_id))));
            m.push((kb_last_entry_hash_b64(), JsonValue::Str(copy_bytes(last_entry_hash_b64))));
            m.push((kb_signature_b64(), JsonValue::Str(copy_bytes(signature_b64))));
            m.push((kb_key_id(), JsonValue::Str(copy_bytes(key_id))));
            m.push((kb_hash_alg(), JsonValue::Str(copy_bytes(hash_alg))));
            m.push((kb_sig_alg(), JsonValue::Str(copy_bytes(sig_alg))));
            m.push((kb_version(), JsonValue::Num(u64_to_dec(*version))));
            let out = JsonValue::Obj(m);
            proof {
                let rv = out.deep_view()->Obj_0;
                let ev = record_jv(rec@)->Obj_0;
                assert forall|j: int| 0 <= j < rv.len() implies rv[j] == ev[j] by {
                    assert(rv[j] == (m@[j].0@, m@[j].1.deep_view()));
                }
                assert(rv =~= ev);
                assert(out.deep_view() =~= record_jv(rec@));
            }
            out
        },
    };
    to_json_bytes(&v)
}

/// The event record a given chain tip and log produce.
pub open spec fn event_record_of(prev: Seq<u8>, l: McpLogV) -> AuditRecordV {
    AuditRecordV::Event {
        log: l,
        integrity: IntegrityFieldsV {
            prev_hash_b64: b64_of(prev),
            entry_hash_b64: b64_of(entry_hash_of(prev, l)),
            hash_alg: k_alg_blake3(),
            version: 1,
        },
    }
}

/// Builds an event record and the new chain tip.
pub fn make_event_record(prev_hash: &Vec<u8>, log: McpLog) -> (r: (AuditRecord, Vec<u8>))
    ensures
        r.1@ == entry_hash_of(prev_hash@, log@),
        r.1@.len() == 32,
        r.0@ == event_record_of(prev_hash@, log@),
        crate::events::log_wf(log@) ==> record_wf(r.0@),
{
    let entry_hash = compute_entry_hash(prev_hash, &log);
    let rec = AuditRecord::Event {
        log,
        integrity: IntegrityFields {
            prev_hash_b64: b64_encode(prev_hash),
            entry_hash_b64: b64_encode(&entry_hash),
            hash_alg: kb_alg_blake3(),
            version: 1,
        },
    };
    proof {
        crate::names::lemma_wire_names_ok();
    }
    (rec, entry_hash)
}

/// Builds a signed checkpoint record for the current chain tip.  The
/// signature is Ed25519 over the 32-byte preimage, so it covers the
/// run, the position and the tip, but not the checkpoint's own
/// timestamp.
pub fn make_checkpoint_record(
    signing_seed: &Vec<u8>,
    run_id: &Vec<u8>,
    created_ts_ms: u64,
    last_event_id: u64,
    last_entry_hash: &Vec<u8>,
) -> (r: AuditRecord)
    requires
        signing_seed@.len() == 32,
    ensures
        r@ == (AuditRecordV::Checkpoint {
            run_id: run_id@,
            created_ts_ms: created_ts_ms,
            last_event_id: last_event_id,
            last_entry_hash_b64: b64_of(last_entry_hash@),
            signature_b64: b64_of(
                ed25519_sig_of(
                    signing_seed@,
                    preimage_of(run_id@, last_event_id, last_entry_hash@),
                ),
            ),
            key_id: signing_key_id_of(ed25519_pub_of(signing_seed@)),
            hash_alg: k_alg_blake3(),
            sig_alg: k_alg_ed25519(),
            version: 1,
        }),
        str_content_ok(run_id@) ==> record_wf(r@),
{
    let pubkey = crate::crypto::ed25519_derive_pub(signing_seed);
    let key_id = key_id_from_pubkey(&pubkey);
    let pre = checkpoint_preimage(run_id, last_event_id, last_entry_hash);
    let sig = ed25519_sign(signing_seed, &pre);
    let rec = AuditRecord::Checkpoint {
        run_id: copy_bytes(run_id),
        created_ts_ms,
        last_event_id,
        last_entry_hash_b64: b64_encode(last_entry_hash),
        signature_b64: b64_encode(&sig),
        key_id,
        hash_alg: kb_alg_blake3(),
        sig_alg: kb_alg_ed25519(),
        version: 1,
    };
    proof {
        crate::names::lemma_wire_names_ok();
    }
    rec
}


/// Reads a string value: exact for every tree.
pub(crate) fn as_str(v: &JsonValue) -> (r: Option<Vec<u8>>)
    ensures
        match r {
            Some(x) => v.deep_view() == Jv::Str(x@),
            None => !(v.deep_view() is Str),
        },
{
    match v {
        JsonValue::Str(s) => Some(copy_bytes(s)),
        _ => None,
    }
}

/// Reads an unsigned number written in this format's own decimal
/// encoding.
pub(crate) fn as_u64(v: &JsonValue) -> (r: Option<u64>)
    ensures
        forall|x: u64| v.deep_view() == #[trigger] jv_u64(x) ==> r == Some(x),
        r is Some ==> v.deep_view() is Num,
{
    proof {
        assert forall|x: u64| v.deep_view() == #[trigger] jv_u64(x) implies v is Num by {}
    }
    match v {
        JsonValue::Num(t) => {
            let n = parse_u64_dec(t);
            proof {
                assert forall|x: u64| v.deep_view() == #[trigger] jv_u64(x) implies n == Some(
                    x,
                ) by {
                    lemma_dec_of_val(x as nat);
                    assert(t@ == dec_of(x as nat));
                }
            }
            n
        },
        _ => None,
    }
}

/// Reads an optional string: null or a string value.
fn as_opt_str(v: &JsonValue) -> (r: Option<Option<Vec<u8>>>)
    ensures
        forall|o: Option<Seq<u8>>| v.deep_view() == #[trigger] jv_opt_str(o) ==> (match r {
            Some(x) => view_opt_bytes(x) == o,
            None => false,
        }),
{
    match v {
        JsonValue::Null => Some(None),
        JsonValue::Str(s) => Some(Some(copy_bytes(s))),
        _ => {
            proof {
                assert forall|o: Option<Seq<u8>>| v.deep_view() != #[trigger] jv_opt_str(o) by {}
            }
            None
        },
    }
}

/// Reads an optional number: null or a decimal value.
fn as_opt_u64(v: &JsonValue) -> (r: Option<Option<u64>>)
    ensures
        forall|o: Option<u64>| v.deep_view() == #[trigger] jv_opt_u64(o) ==> (match r {
            Some(x) => x == o,
            None => false,
        }),
{
    match v {
        JsonValue::Null => Some(None),
        JsonValue::Num(t) => {
            match parse_u64_dec(t) {
                Some(n) => {
                    proof {
                        assert forall|o: Option<u64>|
                            v.deep_view() == #[trigger] jv_opt_u64(o) implies Some(n) == o by {
                            match o {
                                Some(x) => {
                                    lemma_dec_of_val(x as nat);
                                    assert(t@ == dec_of(x as nat));
                                },
                                None => {},
                            }
                        }
                    }
                    Some(Some(n))
                },
                None => {
                    proof {
                        assert forall|o: Option<u64>| v.deep_view() != #[trigger] jv_opt_u64(
                            o,
                        ) by {
                            match o {
                                Some(x) => {
                                    if v.deep_view() == jv_opt_u64(o) {
                                        lemma_dec_of_val(x as nat);
                                        assert(t@ == dec_of(x as nat));
                                    }
                                },
                                None => {},
                            }
                        }
                    }
                    None
                },
            }
        },
        _ => None,
    }
}

/// Reads a direction label.
fn as_direction(v: &JsonValue) -> (r: Option<StreamDirection>)
    ensures
        forall|d: StreamDirection| v.deep_view() == #[trigger] jv_dir(d) ==> r == Some(d),
{
    match v {
        JsonValue::Str(s) => {
            if bytes_eq(s, &kb_inbound()) {
                proof {
                    assert forall|d: StreamDirection|
                        v.deep_view() == #[trigger] jv_dir(d) implies Some(
                        StreamDirection::Inbound,
                    ) == Some(d) by {
                        assert(k_inbound() != k_outbound());
                    }
                }
                Some(StreamDirection::Inbound)
            } else if bytes_eq(s, &kb_outbound()) {
                Some(StreamDirection::Outbound)
            } else {
                None
            }
        },
        _ => None,
    }
}

/// Reads a log record from its JSON object: exact for every tree that
/// is the canonical object of some log record.
#[verifier::rlimit(100)]
fn log_of_json(v: &JsonValue) -> (r: Option<McpLog>)
    ensures
        forall|l: McpLogV| v.deep_view() == #[trigger] log_jv(l) ==> (match r {
            Some(log) => log@ == canon_log(l),
            None => false,
        }),
{
    let m = match v {
        JsonValue::Obj(m) => m,
        _ => {
            proof {
                assert forall|l: McpLogV| v.deep_view() != #[trigger] log_jv(l) by {}
            }
            return None;
        },
    };
    proof {
        assert(v.deep_view()->Obj_0 =~= crate::json::members_view(m@));
    }
    let ghost mv = crate::json::members_view(m@);
    if m.len() != 13 {
        proof {
            assert forall|l: McpLogV| v.deep_view() != #[trigger] log_jv(l) by {}
        }
        return None;
    }
    proof {
        assert forall|l: McpLogV|
            v.deep_view() == #[trigger] log_jv(l) implies mv =~= log_jv(l)->Obj_0 by {}
    }
    let keys_ok = bytes_eq(&m[0].0, &kb_run_id()) && bytes_eq(&m[1].0, &kb_event_id()) && bytes_eq(
        &m[2].0,
        &kb_observed_ts_ms(),
    ) && bytes_eq(&m[3].0, &kb_timestamp()) && bytes_eq(&m[4].0, &kb_direction()) && bytes_eq(
        &m[5].0,
        &kb_method(),
    ) && bytes_eq(&m[6].0, &kb_request_id()) && bytes_eq(&m[7].0, &kb_latency_ms()) && bytes_eq(
        &m[8].0,
        &kb_payload(),
    ) && bytes_eq(&m[9].0, &kb_session_id()) && bytes_eq(&m[10].0, &kb_trace_id()) && bytes_eq(
        &m[11].0,
        &kb_span_id(),
    ) && bytes_eq(&m[12].0, &kb_parent_span_id());
    if !keys_ok {
        proof {
            assert forall|l: McpLogV| v.deep_view() != #[trigger] log_jv(l) by {
                if v.deep_view() == log_jv(l) {
                    assert(mv[0].0 == k_run_id() && mv[1].0 == k_event_id() && mv[2].0
                        == k_observed_ts_ms() && mv[3].0 == k_timestamp() && mv[4].0
                        == k_direction() && mv[5].0 == k_method() && mv[6].0 == k_request_id()
                        && mv[7].0 == k_latency_ms() && mv[8].0 == k_payload() && mv[9].0
                        == k_session_id() && mv[10].0 == k_trace_id() && mv[11].0 == k_span_id()
                        && mv[12].0 == k_parent_span_id());
                }
            }
        }
        return None;
    }
    let run_id = match as_str(&m[0].1) {
        Some(x) => x,
        None => {
            proof {
                assert forall|l: McpLogV| v.deep_view() != #[trigger] log_jv(l) by {
                    if v.deep_view() == log_jv(l) {
                        assert(mv[0].1 == Jv::Str(l.run_id));
                    }
                }
            }
            return None;
        },
    };
    let event_id = match as_u64(&m[1].1) {
        Some(x) => x,
        None => {
            proof {
                assert forall|l: McpLogV| v.deep_view() != #[trigger] log_jv(l) by {
                    if v.deep_view() == log_jv(l) {
                        assert(mv[1].1 == jv_u64(l.event_id));
                    }
                }
            }
            return None;
        },
    };
    let observed_ts_ms = match as_u64(&m[2].1) {
        Some(x) => x,
        None => {
            proof {
                assert forall|l: McpLogV| v.deep_view() != #[trigger] log_jv(l) by {
                    if v.deep_view() == log_jv(l) {
                        assert(mv[2].1 == jv_u64(l.observed_ts_ms));
                    }
                }
            }
            return None;
        },
    };
    let timestamp = match as_u64(&m[3].1) {
        Some(x) => x,
        None => {
            proof {
                assert forall|l: McpLogV| v.deep_view() != #[trigger] log_jv(l) by {
                    if v.deep_view() == log_jv(l) {
                        assert(mv[3].1 == jv_u64(l.timestamp));
                    }
                }
            }
            return None;
        },
    };
    let direction = match as_direction(&m[4].1) {
        Some(x) => x,
        None => {
            proof {
                assert forall|l: McpLogV| v.deep_view() != #[trigger] log_jv(l) by {
                    if v.deep_view() == log_jv(l) {
                        assert(mv[4].1 == jv_dir(l.direction));
                    }
                }
            }
            return None;
        },
    };
    let method = match as_opt_str(&m[5].1) {
        Some(x) => x,
        None => {
            proof {
                assert forall|l: McpLogV| v.deep_view() != #[trigger] log_jv(l) by {
                    if v.deep_view() == log_jv(l) {
                        assert(mv[5].1 == jv_opt_str(l.method));
                    }
                }
            }
            return None;
        },
    };
    let request_id = match as_opt_u64(&m[6].1) {
        Some(x) => x,
        None => {
            proof {
                assert forall|l: McpLogV| v.deep_view() != #[trigger] log_jv(l) by {
                    if v.deep_view() == log_jv(l) {
                        assert(mv[6].1 == jv_opt_u64(l.request_id));
                    }
                }
            }
            return None;
        },
    };
    let latency_ms = match as_opt_u64(&m[7].1) {
        Some(x) => x,
        None => {
            proof {
                assert forall|l: McpLogV| v.deep_view() != #[trigger] log_jv(l) by {
                    if v.deep_view() == log_jv(l) {
                        assert(mv[7].1 == jv_opt_u64(l.latency_ms));
                    }
                }
            }
            return None;
        },
    };
    let payload = crate::canon::copy_value(&m[8].1);
    let session_id = match as_str(&m[9].1) {
        Some(x) => x,
        None => {
            proof {
                assert forall|l: McpLogV| v.deep_view() != #[trigger] log_jv(l) by {
                    if v.deep_view() == log_jv(l) {
                        assert(mv[9].1 == Jv::Str(l.session_id));
                    }
                }
            }
            return None;
        },
    };
    let trace_id = match as_str(&m[10].1) {
        Some(x) => x,
        None => {
            proof {
                assert forall|l: McpLogV| v.deep_view() != #[trigger] log_jv(l) by {
                    if v.deep_view() == log_jv(l) {
                        assert(mv[10].1 == Jv::Str(l.trace_id));
                    }
                }
            }
            return None;
        },
    };
    let span_id = match as_str(&m[11].1) {
        Some(x) => x,
        None => {
            proof {
                assert forall|l: McpLogV| v.deep_view() != #[trigger] log_jv(l) by {
                    if v.deep_view() == log_jv(l) {
                        assert(mv[11].1 == Jv::Str(l.span_id));
                    }
                }
            }
            return None;
        },
    };
    let parent_span_id = match as_opt_str(&m[12].1) {
        Some(x) => x,
        None => {
            proof {
                assert forall|l: McpLogV| v.deep_view() != #[trigger] log_jv(l) by {
                    if v.deep_view() == log_jv(l) {
                        assert(mv[12].1 == jv_opt_str(l.parent_span_id));
                    }
                }
            }
            return None;
        },
    };
    let out = McpLog {
        run_id,
        event_id,
        observed_ts_ms,
        timestamp,
        direction,
        method,
        request_id,
        latency_ms,
        payload,
        session_id,
        trace_id,
        span_id,
        parent_span_id,
    };
    proof {
        assert forall|l: McpLogV| v.deep_view() == #[trigger] log_jv(l) implies out@ == canon_log(
            l,
        ) by {
            assert(mv[0].1 == m@[0].1.deep_view() && mv[1].1 == m@[1].1.deep_view() && mv[2].1
                == m@[2].1.deep_view() && mv[3].1 == m@[3].1.deep_view() && mv[4].1
                == m@[4].1.deep_view() && mv[5].1 == m@[5].1.deep_view() && mv[6].1
                == m@[6].1.deep_view() && mv[7].1 == m@[7].1.deep_view() && mv[8].1
                == m@[8].1.deep_view() && mv[9].1 == m@[9].1.deep_view() && mv[10].1
                == m@[10].1.deep_view() && mv[11].1 == m@[11].1.deep_view() && mv[12].1
                == m@[12].1.deep_view());
            assert(mv[0].1 == Jv::Str(l.run_id));
            assert(mv[1].1 == jv_u64(l.event_id));
            assert(mv[2].1 == jv_u64(l.observed_ts_ms));
            assert(mv[3].1 == jv_u64(l.timestamp));
            assert(mv[4].1 == jv_dir(l.direction));
            assert(mv[5].1 == jv_opt_str(l.method));
            assert(mv[6].1 == jv_opt_u64(l.request_id));
            assert(mv[7].1 == jv_opt_u64(l.latency_ms));
            assert(mv[8].1 == canon(l.payload));
            assert(mv[9].1 == Jv::Str(l.session_id));
            assert(mv[10].1 == Jv::Str(l.trace_id));
            assert(mv[11].1 == Jv::Str(l.span_id));
            assert(mv[12].1 == jv_opt_str(l.parent_span_id));
            assert(out.payload.deep_view() == m@[8].1.deep_view());
            assert(out@.run_id == l.run_id);
            assert(out@.event_id == l.event_id);
            assert(out@.observed_ts_ms == l.observed_ts_ms);
            assert(out@.timestamp == l.timestamp);
            assert(out@.direction == l.direction);
            assert(out@.method == l.method);
            assert(out@.request_id == l.request_id);
            assert(out@.latency_ms == l.latency_ms);
            assert(out@.payload == canon(l.payload));
            assert(out@.session_id == l.session_id);
            assert(out@.trace_id == l.trace_id);
            assert(out@.span_id == l.span_id);
            assert(out@.parent_span_id == l.parent_span_id);
            assert(out@ == canon_log(l));
        }
    }
    Some(out)
}

/// Reads an integrity block: exact for every tree that is the
/// canonical object of some block.
fn integrity_of_json(v: &JsonValue) -> (r: Option<IntegrityFields>)
    ensures
        forall|f: IntegrityFieldsV| v.deep_view() == #[trigger] integrity_jv(f) ==> (match r {
            Some(out) => out@ == f,
            None => false,
        }),
{
    let m = match v {
        JsonValue::Obj(m) => m,
        _ => {
            proof {
                assert forall|f: IntegrityFieldsV| v.deep_view() != #[trigger] integrity_jv(f) by {}
            }
            return None;
        },
    };
    proof {
        assert(v.deep_view()->Obj_0 =~= crate::json::members_view(m@));
    }
    let ghost mv = crate::json::members_view(m@);
    if m.len() != 4 {
        proof {
            assert forall|f: IntegrityFieldsV| v.deep_view() != #[trigger] integrity_jv(f) by {}
        }
        return None;
    }
    let keys_ok = bytes_eq(&m[0].0, &kb_prev_hash_b64()) && bytes_eq(&m[1].0, &kb_entry_hash_b64())
        && bytes_eq(&m[2].0, &kb_hash_alg()) && bytes_eq(&m[3].0, &kb_version());
    if !keys_ok {
        proof {
            assert forall|f: IntegrityFieldsV| v.deep_view() != #[trigger] integrity_jv(f) by {
                if v.deep_view() == integrity_jv(f) {
                    assert(mv[0].0 == k_prev_hash_b64() && mv[1].0 == k_entry_hash_b64() && mv[2].0
                        == k_hash_alg() && mv[3].0 == k_version());
                }
            }
        }
        return None;
    }
    let prev_hash_b64 = match as_str(&m[0].1) {
        Some(x) => x,
        None => {
            proof {
                assert forall|f: IntegrityFieldsV| v.deep_view() != #[trigger] integrity_jv(f) by {
                    if v.deep_view() == integrity_jv(f) {
                        assert(mv[0].1 == Jv::Str(f.prev_hash_b64));
                    }
                }
            }
            return None;
        },
    };
    let entry_hash_b64 = match as_str(&m[1].1) {
        Some(x) => x,
        None => {
            proof {
                assert forall|f: IntegrityFieldsV| v.deep_view() != #[trigger] integrity_jv(f) by {
                    if v.deep_view() == integrity_jv(f) {
                        assert(mv[1].1 == Jv::Str(f.entry_hash_b64));
                    }
                }
            }
            return None;
        },
    };
    let hash_alg = match as_str(&m[2].1) {
        Some(x) => x,
        None => {
            proof {
                assert forall|f: IntegrityFieldsV| v.deep_view() != #[trigger] integrity_jv(f) by {
                    if v.deep_view() == integrity_jv(f) {
                        assert(mv[2].1 == Jv::Str(f.hash_alg));
                    }
                }
            }
            return None;
        },
    };
    let version = match as_u64(&m[3].1) {
        Some(x) => x,
        None => {
            proof {
                assert forall|f: IntegrityFieldsV| v.deep_view() != #[trigger] integrity_jv(f) by {
                    if v.deep_view() == integrity_jv(f) {
                        assert(mv[3].1 == jv_u64(f.version));
                    }
                }
            }
            return None;
        },
    };
    let out = IntegrityFields { prev_hash_b64, entry_hash_b64, hash_alg, version };
    proof {
        assert forall|f: IntegrityFieldsV|
            v.deep_view() == #[trigger] integrity_jv(f) implies out@ == f by {
            assert(mv[0].1 == Jv::Str(f.prev_hash_b64));
            assert(mv[1].1 == Jv::Str(f.entry_hash_b64));
            assert(mv[2].1 == Jv::Str(f.hash_alg));
            assert(mv[3].1 == jv_u64(f.version));
        }
    }
    Some(out)
}

/// Reads a record from its JSON tree: exact for every tree that is
/// the canonical object of some record.
#[verifier::rlimit(100)]
fn record_of_json(v: &JsonValue) -> (r: Option<AuditRecord>)
    ensures
        forall|recv: AuditRecordV| v.deep_view() == #[trigger] record_jv(recv) ==> (match r {
            Some(rec) => rec@ == canon_rec(recv),
            None => false,
        }),
{
    let m = match v {
        JsonValue::Obj(m) => m,
        _ => {
            proof {
                assert forall|recv: AuditRecordV| v.deep_view() != #[trigger] record_jv(recv) by {}
            }
            return None;
        },
    };
    proof {
        assert(v.deep_view()->Obj_0 =~= crate::json::members_view(m@));
    }
    let ghost mv = crate::json::members_view(m@);
    if m.len() == 3 {
        let keys_ok = bytes_eq(&m[0].0, &kb_record_type()) && bytes_eq(&m[1].0, &kb_log())
            && bytes_eq(&m[2].0, &kb_integrity());
        let tag_ok = match &m[0].1 {
            JsonValue::Str(tag) => bytes_eq(tag, &kb_event()),
            _ => false,
        };
        if !(keys_ok && tag_ok) {
            proof {
                assert forall|recv: AuditRecordV| v.deep_view() != #[trigger] record_jv(recv) by {
                    if v.deep_view() == record_jv(recv) {
                        assert(recv is Event);
                        assert(mv[0] == (k_record_type(), Jv::Str(k_event())));
                        assert(mv[1].0 == k_log() && mv[2].0 == k_integrity());
                        assert(m@[0].1.deep_view() == Jv::Str(k_event()));
                    }
                }
            }
            return None;
        }
        let log = match log_of_json(&m[1].1) {
            Some(x) => x,
            None => {
                proof {
                    assert forall|recv: AuditRecordV| v.deep_view() != #[trigger] record_jv(
                        recv,
                    ) by {
                        if v.deep_view() == record_jv(recv) {
                            assert(recv is Event);
                            assert(m@[1].1.deep_view() == log_jv(recv->Event_log));
                        }
                    }
                }
                return None;
            },
        };
        let integrity = match integrity_of_json(&m[2].1) {
            Some(x) => x,
            None => {
                proof {
                    assert forall|recv: AuditRecordV| v.deep_view() != #[trigger] record_jv(
                        recv,
                    ) by {
                        if v.deep_view() == record_jv(recv) {
                            assert(recv is Event);
                            assert(m@[2].1.deep_view() == integrity_jv(recv->Event_integrity));
                        }
                    }
                }
                return None;
            },
        };
        let out = AuditRecord::Event { log, integrity };
        proof {
            assert forall|recv: AuditRecordV|
                v.deep_view() == #[trigger] record_jv(recv) implies out@ == canon_rec(recv) by {
                assert(recv is Event);
                assert(m@[1].1.deep_view() == log_jv(recv->Event_log));
                assert(m@[2].1.deep_view() == integrity_jv(recv->Event_integrity));
                assert(log@ == canon_log(recv->Event_log));
                assert(integrity@ == recv->Event_integrity);
            }
        }
        Some(out)
    } else if m.len() == 10 {
        let keys_ok = bytes_eq(&m[0].0, &kb_record_type()) && bytes_eq(&m[1].0, &kb_run_id())
            && bytes_eq(&m[2].0, &kb_created_ts_ms()) && bytes_eq(&m[3].0, &kb_last_event_id())
            && bytes_eq(&m[4].0, &kb_last_entry_hash_b64()) && bytes_eq(
            &m[5].0,
            &kb_signature_b64(),
        ) && bytes_eq(&m[6].0, &kb_key_id()) && bytes_eq(&m[7].0, &kb_hash_alg()) && bytes_eq(
            &m[8].0,
            &kb_sig_alg(),
        ) && bytes_eq(&m[9].0, &kb_version());
        let tag_ok = match &m[0].1 {
            JsonValue::Str(tag) => bytes_eq(tag, &kb_checkpoint()),
            _ => false,
        };
        let run_id = as_str(&m[1].1);
        let created_ts_ms = as_u64(&m[2].1);
        let last_event_id = as_u64(&m[3].1);
        let last_entry_hash_b64 = as_str(&m[4].1);
        let signature_b64 = as_str(&m[5].1);
        let key_id = as_str(&m[6].1);
        let hash_alg = as_str(&m[7].1);
        let sig_alg = as_str(&m[8].1);
        let version = as_u64(&m[9].1);
        proof {
            assert forall|recv: AuditRecordV|
                v.deep_view() == #[trigger] record_jv(recv) implies (recv is Checkpoint) && mv[0]
                == (k_record_type(), Jv::Str(k_checkpoint())) && mv[1].1 == Jv::Str(
                recv->Checkpoint_run_id,
            ) && mv[2].1 == jv_u64(recv->Checkpoint_created_ts_ms) && mv[3].1 == jv_u64(
                recv->Checkpoint_last_event_id,
            ) && mv[4].1 == Jv::Str(recv->Checkpoint_last_entry_hash_b64) && mv[5].1 == Jv::Str(
                recv->Checkpoint_signature_b64,
            ) && mv[6].1 == Jv::Str(recv->Checkpoint_key_id) && mv[7].1 == Jv::Str(
                recv->Checkpoint_hash_alg,
            ) && mv[8].1 == Jv::Str(recv->Checkpoint_sig_alg) && mv[9].1 == jv_u64(
                recv->Checkpoint_version,
            ) by {}
        }
        match (keys_ok && tag_ok, run_id, created_ts_ms, last_event_id, last_entry_hash_b64,
            signature_b64, key_id, hash_alg, sig_alg, version) {
            (
                true,
                Some(run_id),
                Some(created_ts_ms),
                Some(last_event_id),
                Some(last_entry_hash_b64),
                Some(signature_b64),
                Some(key_id),
                Some(hash_alg),
                Some(sig_alg),
                Some(version),
            ) => {
                let out = AuditRecord::Checkpoint {
                    run_id,
                    created_ts_ms,
                    last_event_id,
                    last_entry_hash_b64,
                    signature_b64,
                    key_id,
                    hash_alg,
                    sig_alg,
                    version,
                };
                proof {
                    assert forall|recv: AuditRecordV|
                        v.deep_view() == #[trigger] record_jv(recv) implies out@ == canon_rec(
                        recv,
                    ) by {}
                }
                Some(out)
            },
            _ => {
                proof {
                    assert forall|recv: AuditRecordV| v.deep_view() != #[trigger] record_jv(
                        recv,
                    ) by {
                        if v.deep_view() == record_jv(recv) {
                            assert(m@[0].1.deep_view() == Jv::Str(k_checkpoint()));
                        }
                    }
                }
                None
            },
        }
    } else {
        proof {
            assert forall|recv: AuditRecordV| v.deep_view() != #[trigger] record_jv(recv) by {}
        }
        None
    }
}

/// A record whose textual fields are all valid string content, as
/// every record this crate writes is.
pub open spec fn record_wf(r: AuditRecordV) -> bool {
    match r {
        AuditRecordV::Event { log, integrity } => {
            &&& crate::events::log_wf(log)
            &&& str_content_ok(integrity.prev_hash_b64)
            &&& str_content_ok(integrity.entry_hash_b64)
            &&& str_content_ok(integrity.hash_alg)
        },
        AuditRecordV::Checkpoint {
            run_id,
            created_ts_ms: _,
            last_event_id: _,
            last_entry_hash_b64,
            signature_b64,
            key_id,
            hash_alg,
            sig_alg,
            version: _,
        } => {
            &&& str_content_ok(run_id)
            &&& str_content_ok(last_entry_hash_b64)
            &&& str_content_ok(signature_b64)
            &&& str_content_ok(key_id)
            &&& str_content_ok(hash_alg)
            &&& str_content_ok(sig_alg)
        },
    }
}

/// The number written for a `u64` is a well-formed token.
proof fn lemma_jv_u64_wf(n: u64)
    ensures
        wf_json(jv_u64(n)),
{
    crate::codec::lemma_dec_of_digits(n as nat);
    assert(num_token_ok(dec_of(n as nat)));
}

/// The JSON tree of a well-formed record is well-formed, so it
/// serializes to parseable text.
pub proof fn lemma_record_jv_wf(r: AuditRecordV)
    requires
        record_wf(r),
    ensures
        wf_json(record_jv(r)),
{
    crate::names::lemma_wire_names_ok();
    match r {
        AuditRecordV::Event { log, integrity } => {
            let lm = log_jv(log)->Obj_0;
            lemma_jv_u64_wf(log.event_id);
            lemma_jv_u64_wf(log.observed_ts_ms);
            lemma_jv_u64_wf(log.timestamp);
            match log.request_id {
                Some(x) => lemma_jv_u64_wf(x),
                None => {},
            }
            match log.latency_ms {
                Some(x) => lemma_jv_u64_wf(x),
                None => {},
            }
            crate::canon::lemma_canon_wf(log.payload);
            assert forall|i: int| 0 <= i < lm.len() implies str_content_ok(
                #[trigger] lm[i].0,
            ) by {}
            assert forall|i: int| 0 <= i < lm.len() implies wf_json(#[trigger] lm[i].1) by {}
            crate::json::lemma_wf_members_build(lm);
            let im = integrity_jv(integrity)->Obj_0;
            lemma_jv_u64_wf(integrity.version);
            assert forall|i: int| 0 <= i < im.len() implies str_content_ok(
                #[trigger] im[i].0,
            ) by {}
            assert forall|i: int| 0 <= i < im.len() implies wf_json(#[trigger] im[i].1) by {}
            crate::json::lemma_wf_members_build(im);
            let tm = record_jv(r)->Obj_0;
            assert forall|i: int| 0 <= i < tm.len() implies str_content_ok(
                #[trigger] tm[i].0,
            ) by {}
            assert forall|i: int| 0 <= i < tm.len() implies wf_json(#[trigger] tm[i].1) by {}
            crate::json::lemma_wf_members_build(tm);
        },
        AuditRecordV::Checkpoint {
            run_id,
            created_ts_ms,
            last_event_id,
            last_entry_hash_b64,
            signature_b64,
            key_id,
            hash_alg,
            sig_alg,
            version,
        } => {
            lemma_jv_u64_wf(created_ts_ms);
            lemma_jv_u64_wf(last_event_id);
            lemma_jv_u64_wf(version);
            let tm = record_jv(r)->Obj_0;
            assert forall|i: int| 0 <= i < tm.len() implies str_content_ok(
                #[trigger] tm[i].0,
            ) by {}
            assert forall|i: int| 0 <= i < tm.len() implies wf_json(#[trigger] tm[i].1) by {}
            crate::json::lemma_wf_members_build(tm);
        },
    }
}

/// Canonicalizing a record's payload does not change its written
/// form: the written payload is canonical already.
pub proof fn lemma_record_jv_canon(r: AuditRecordV)
    ensures
        record_jv(canon_rec(r)) == record_jv(r),
{
    match r {
        AuditRecordV::Event { log, integrity } => {
            crate::canon::lemma_canon_idempotent(log.payload);
            assert(log_jv(canon_log(log))->Obj_0 =~= log_jv(log)->Obj_0);
            assert(log_jv(canon_log(log)) =~= log_jv(log));
            assert(record_jv(canon_rec(r))->Obj_0 =~= record_jv(r)->Obj_0);
            assert(record_jv(canon_rec(r)) =~= record_jv(r));
        },
        AuditRecordV::Checkpoint { .. } => {},
    }
}

/// Reads one record line.  A line is accepted exactly when it is the
/// canonical serialization of a record: accepted records re-serialize
/// to the line byte for byte, and a line that is the written form of
/// any well-formed record is always accepted, yielding that record
/// (with its payload in canonical form, as written).
pub fn parse_record(line: &Vec<u8>) -> (r: Option<AuditRecord>)
    ensures
        r matches Some(rec) ==> line@ == ser_value(record_jv(rec@)),
        forall|recv: AuditRecordV|
            record_wf(recv) && line@ == ser_value(#[trigger] record_jv(recv)) ==> (match r {
                Some(rec) => rec@ == canon_rec(recv),
                None => false,
            }),
{
    let v = match parse_json(line) {
        Some(v) => v,
        None => {
            proof {
                assert forall|recv: AuditRecordV| !(record_wf(recv) && line@ == ser_value(
                    #[trigger] record_jv(recv),
                )) by {
                    if record_wf(recv) && line@ == ser_value(record_jv(recv)) {
                        lemma_record_jv_wf(recv);
                    }
                }
            }
            return None;
        },
    };
    proof {
        assert forall|recv: AuditRecordV|
            record_wf(recv) && line@ == ser_value(#[trigger] record_jv(recv)) implies v.deep_view()
            == record_jv(recv) by {
            lemma_record_jv_wf(recv);
        }
    }
    let rec = match record_of_json(&v) {
        Some(r) => r,
        None => {
            proof {
                assert forall|recv: AuditRecordV| !(record_wf(recv) && line@ == ser_value(
                    #[trigger] record_jv(recv),
                )) by {
                    if record_wf(recv) && line@ == ser_value(record_jv(recv)) {
                        assert(v.deep_view() == record_jv(recv));
                    }
                }
            }
            return None;
        },
    };
    let line2 = record_to_line(&rec);
    proof {
        assert forall|recv: AuditRecordV|
            record_wf(recv) && line@ == ser_value(#[trigger] record_jv(recv)) implies line2@
            == line@ && rec@ == canon_rec(recv) by {
            assert(v.deep_view() == record_jv(recv));
            assert(rec@ == canon_rec(recv));
            lemma_record_jv_canon(recv);
        }
    }
    if bytes_eq(&line2, line) {
        Some(rec)
    } else {
        proof {
            assert forall|recv: AuditRecordV| !(record_wf(recv) && line@ == ser_value(
                #[trigger] record_jv(recv),
            )) by {
                if record_wf(recv) && line@ == ser_value(record_jv(recv)) {
                    assert(line2@ == line@);
                }
            }
        }
        None
    }
}

/// Reads a 32-byte key from the contents of a key file: base64 with
/// surrounding whitespace tolerated.  Succeeds exactly when the
/// trimmed contents canonically encode 32 bytes.
pub fn parse_key_b64(content: &Vec<u8>) -> (r: Result<Vec<u8>, crate::errors::AuditError>)
    ensures
        r matches Ok(k) ==> k@.len() == 32 && crate::audit::is_b64_32(trim_ws(content@))
            && trim_ws(content@) == b64_of(k@),
        r matches Err(e) ==> e == crate::errors::AuditError::BadKeyFile && !crate::audit::is_b64_32(
            trim_ws(content@),
        ),
{
    let trimmed = trim_bytes(content);
    match crate::codec::b64_decode(&trimmed) {
        Some(k) => {
            if k.len() == 32 {
                Ok(k)
            } else {
                Err(crate::errors::AuditError::BadKeyFile)
            }
        },
        None => Err(crate::errors::AuditError::BadKeyFile),
    }
}

/// The contents with leading and trailing whitespace removed.
pub open spec fn trim_ws(s: Seq<u8>) -> Seq<u8>
    decreases s.len(),
{
    if s.len() == 0 {
        s
    } else if crate::jtext::is_ws(s[0]) {
        trim_ws(s.drop_first())
    } else if crate::jtext::is_ws(s.last()) {
        trim_ws(s.drop_last())
    } else {
        s
    }
}

fn is_ws_byte(b: u8) -> (r: bool)
    ensures
        r == crate::jtext::is_ws(b),
{
    b == 0x20 || b == 0x09 || b == 0x0a || b == 0x0d
}

/// Removes leading and trailing whitespace.
#[verifier::loop_isolation(false)]
pub fn trim_bytes(s: &Vec<u8>) -> (r: Vec<u8>)
    ensures
        r@ == trim_ws(s@),
{
    let mut lo: usize = 0;
    let mut hi: usize = s.len();
    proof {
        assert(s@.subrange(0, s@.len() as int) =~= s@);
    }
    loop
        invariant
            lo <= hi <= s@.len(),
            trim_ws(s@) == trim_ws(s@.subrange(lo as int, hi as int)),
        decreases hi - lo,
    {
        if lo >= hi {
            break;
        }
        if !is_ws_byte(s[lo]) {
            break;
        }
        proof {
            let sub = s@.subrange(lo as int, hi as int);
            assert(sub.drop_first() =~= s@.subrange(lo + 1, hi as int));
        }
        lo = lo + 1;
    }
    loop
        invariant
            lo <= hi <= s@.len(),
            trim_ws(s@) == trim_ws(s@.subrange(lo as int, hi as int)),
            lo < hi ==> !crate::jtext::is_ws(s@[lo as int]),
        decreases hi - lo,
    {
        if lo >= hi {
            break;
        }
        if !is_ws_byte(s[hi - 1]) {
            break;
        }
        proof {
            let sub = s@.subrange(lo as int, hi as int);
            assert(sub.drop_last() =~= s@.subrange(lo as int, hi - 1));
            assert(sub[0] == s@[lo as int]);
        }
        hi = hi - 1;
    }
    let mut out: Vec<u8> = Vec::new();
    let mut i = lo;
    while i < hi
        invariant
            lo <= i <= hi <= s@.len(),
            out@ == s@.subrange(lo as int, i as int),
        decreases hi - i,
    {
        out.push(s[i]);
        proof {
            assert(s@.subrange(lo as int, i + 1) =~= s@.subrange(lo as int, i as int).push(
                s@[i as int],
            ));
        }
        i = i + 1;
    }
    proof {
        let sub = s@.subrange(lo as int, hi as int);
        if sub.len() > 0 {
            assert(!crate::jtext::is_ws(sub[0]));
            assert(!crate::jtext::is_ws(sub.last()));
        }
        assert(trim_ws(sub) == sub);
        assert(out@ =~= sub);
    }
    out
}

/// A key file's line: the base64 of the key followed by a newline.
pub fn key_file_line(key: &Vec<u8>) -> (r: Vec<u8>)
    ensures
        r@ == b64_of(key@) + seq![0x0au8],
{
    let mut line = b64_encode(key);
    line.push(0x0a);
    line
}

/// The entry hash does not depend on the order in which the
/// payload's object members were written: two logs that differ only
/// in the arrangement of their payloads' top-level members (with
/// distinct keys, holding the same members up to canonicalization of
/// their values) hash identically; and the hash of a given log is one
/// fixed value, recomputable at will.
pub proof fn lemma_entry_hash_key_order(
    prev: Seq<u8>,
    l1: McpLogV,
    l2: McpLogV,
    m1: Seq<(Seq<u8>, Jv)>,
    m2: Seq<(Seq<u8>, Jv)>,
)
    requires
        l1.payload == Jv::Obj(m1),
        l2.payload == Jv::Obj(m2),
        crate::canon::canon_members(m1).to_multiset() == crate::canon::canon_members(
            m2,
        ).to_multiset(),
        crate::canon::key_distinct(m1),
        crate::canon::key_distinct(m2),
        l1 == (McpLogV { payload: l1.payload, ..l2 }),
    ensures
        entry_hash_of(prev, l1) == entry_hash_of(prev, l2),
{
    crate::canon::lemma_canon_obj_key_order(m1, m2);
    assert(signable_jv(l1) == signable_jv(l2));
}

} // verus!
