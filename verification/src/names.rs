//! The fixed strings of the wire format, as byte sequences: JSON
//! member names, record type tags and algorithm labels.  Each has a
//! specification-level value `k_*` and an executable constructor
//! `kb_*` returning those bytes.
use vstd::prelude::*;

use crate::json::str_content_ok;

verus! {

/// A byte string of printable ASCII without quotes or backslashes is
/// valid string content as it stands.
pub proof fn lemma_plain_str_ok(s: Seq<u8>)
    requires
        forall|i: int|
            0 <= i < s.len() ==> 0x20 <= #[trigger] s[i] && s[i] != 0x22 && s[i] != 0x5c,
    ensures
        str_content_ok(s),
    decreases s.len(),
{
    if s.len() > 0 {
        assert forall|i: int|
            0 <= i < s.skip(1).len() implies 0x20 <= #[trigger] s.skip(1)[i] && s.skip(1)[i]
            != 0x22 && s.skip(1)[i] != 0x5c by {
            assert(s.skip(1)[i] == s[i + 1]);
        }
        lemma_plain_str_ok(s.skip(1));
    }
}

pub open spec fn k_record_type() -> Seq<u8> {
    seq![0x72u8, 0x65u8, 0x63u8, 0x6fu8, 0x72u8, 0x64u8, 0x5fu8, 0x74u8, 0x79u8, 0x70u8, 0x65u8]
}

pub fn kb_record_type() -> (r: Vec<u8>)
    ensures
        r@ == k_record_type(),
{
    let v: Vec<u8> = vec![0x72u8, 0x65u8, 0x63u8, 0x6fu8, 0x72u8, 0x64u8, 0x5fu8, 0x74u8, 0x79u8, 0x70u8, 0x65u8];
    proof {
        assert(v@ =~= k_record_type());
    }
    v
}

pub open spec fn k_log() -> Seq<u8> {
    seq![0x6cu8, 0x6fu8, 0x67u8]
}

pub fn kb_log() -> (r: Vec<u8>)
    ensures
        r@ == k_log(),
{
    let v: Vec<u8> = vec![0x6cu8, 0x6fu8, 0x67u8];
    proof {
        assert(v@ =~= k_log());
    }
    v
}

pub open spec fn k_integrity() -> Seq<u8> {
    seq![0x69u8, 0x6eu8, 0x74u8, 0x65u8, 0x67u8, 0x72u8, 0x69u8, 0x74u8, 0x79u8]
}

pub fn kb_integrity() -> (r: Vec<u8>)
    ensures
        r@ == k_integrity(),
{
    let v: Vec<u8> = vec![0x69u8, 0x6eu8, 0x74u8, 0x65u8, 0x67u8, 0x72u8, 0x69u8, 0x74u8, 0x79u8];
    proof {
        assert(v@ =~= k_integrity());
    }
    v
}

pub open spec fn k_run_id() -> Seq<u8> {
    seq![0x72u8, 0x75u8, 0x6eu8, 0x5fu8, 0x69u8, 0x64u8]
}

pub fn kb_run_id() -> (r: Vec<u8>)
    ensures
        r@ == k_run_id(),
{
    let v: Vec<u8> = vec![0x72u8, 0x75u8, 0x6eu8, 0x5fu8, 0x69u8, 0x64u8];
    proof {
        assert(v@ =~= k_run_id());
    }
    v
}

pub open spec fn k_event_id() -> Seq<u8> {
    seq![0x65u8, 0x76u8, 0x65u8, 0x6eu8, 0x74u8, 0x5fu8, 0x69u8, 0x64u8]
}

pub fn kb_event_id() -> (r: Vec<u8>)
    ensures
        r@ == k_event_id(),
{
    let v: Vec<u8> = vec![0x65u8, 0x76u8, 0x65u8, 0x6eu8, 0x74u8, 0x5fu8, 0x69u8, 0x64u8];
    proof {
        assert(v@ =~= k_event_id());
    }
    v
}

pub open spec fn k_observed_ts_ms() -> Seq<u8> {
    seq![0x6fu8, 0x62u8, 0x73u8, 0x65u8, 0x72u8, 0x76u8, 0x65u8, 0x64u8, 0x5fu8, 0x74u8, 0x73u8, 0x5fu8, 0x6du8, 0x73u8]
}

pub fn kb_observed_ts_ms() -> (r: Vec<u8>)
    ensures
        r@ == k_observed_ts_ms(),
{
    let v: Vec<u8> = vec![0x6fu8, 0x62u8, 0x73u8, 0x65u8, 0x72u8, 0x76u8, 0x65u8, 0x64u8, 0x5fu8, 0x74u8, 0x73u8, 0x5fu8, 0x6du8, 0x73u8];
    proof {
        assert(v@ =~= k_observed_ts_ms());
    }
    v
}

pub open spec fn k_timestamp() -> Seq<u8> {
    seq![0x74u8, 0x69u8, 0x6du8, 0x65u8, 0x73u8, 0x74u8, 0x61u8, 0x6du8, 0x70u8]
}

pub fn kb_timestamp() -> (r: Vec<u8>)
    ensures
        r@ == k_timestamp(),
{
    let v: Vec<u8> = vec![0x74u8, 0x69u8, 0x6du8, 0x65u8, 0x73u8, 0x74u8, 0x61u8, 0x6du8, 0x70u8];
    proof {
        assert(v@ =~= k_timestamp());
    }
    v
}

pub open spec fn k_direction() -> Seq<u8> {
    seq![0x64u8, 0x69u8, 0x72u8, 0x65u8, 0x63u8, 0x74u8, 0x69u8, 0x6fu8, 0x6eu8]
}

pub fn kb_direction() -> (r: Vec<u8>)
    ensures
        r@ == k_direction(),
{
    let v: Vec<u8> = vec![0x64u8, 0x69u8, 0x72u8, 0x65u8, 0x63u8, 0x74u8, 0x69u8, 0x6fu8, 0x6eu8];
    proof {
        assert(v@ =~= k_direction());
    }
    v
}

pub open spec fn k_method() -> Seq<u8> {
    seq![0x6du8, 0x65u8, 0x74u8, 0x68u8, 0x6fu8, 0x64u8]
}

pub fn kb_method() -> (r: Vec<u8>)
    ensures
        r@ == k_method(),
{
    let v: Vec<u8> = vec![0x6du8, 0x65u8, 0x74u8, 0x68u8, 0x6fu8, 0x64u8];
    proof {
        assert(v@ =~= k_method());
    }
    v
}

pub open spec fn k_request_id() -> Seq<u8> {
    seq![0x72u8, 0x65u8, 0x71u8, 0x75u8, 0x65u8, 0x73u8, 0x74u8, 0x5fu8, 0x69u8, 0x64u8]
}

pub fn kb_request_id() -> (r: Vec<u8>)
    ensures
        r@ == k_request_id(),
{
    let v: Vec<u8> = vec![0x72u8, 0x65u8, 0x71u8, 0x75u8, 0x65u8, 0x73u8, 0x74u8, 0x5fu8, 0x69u8, 0x64u8];
    proof {
        assert(v@ =~= k_request_id());
    }
    v
}

pub open spec fn k_latency_ms() -> Seq<u8> {
    seq![0x6cu8, 0x61u8, 0x74u8, 0x65u8, 0x6eu8, 0x63u8, 0x79u8, 0x5fu8, 0x6du8, 0x73u8]
}

pub fn kb_latency_ms() -> (r: Vec<u8>)
    ensures
        r@ == k_latency_ms(),
{
    let v: Vec<u8> = vec![0x6cu8, 0x61u8, 0x74u8, 0x65u8, 0x6eu8, 0x63u8, 0x79u8, 0x5fu8, 0x6du8, 0x73u8];
    proof {
        assert(v@ =~= k_latency_ms());
    }
    v
}

pub open spec fn k_payload() -> Seq<u8> {
    seq![0x70u8, 0x61u8, 0x79u8, 0x6cu8, 0x6fu8, 0x61u8, 0x64u8]
}

pub fn kb_payload() -> (r: Vec<u8>)
    ensures
        r@ == k_payload(),
{
    let v: Vec<u8> = vec![0x70u8, 0x61u8, 0x79u8, 0x6cu8, 0x6fu8, 0x61u8, 0x64u8];
    proof {
        assert(v@ =~= k_payload());
    }
    v
}

pub open spec fn k_session_id() -> Seq<u8> {
    seq![0x73u8, 0x65u8, 0x73u8, 0x73u8, 0x69u8, 0x6fu8, 0x6eu8, 0x5fu8, 0x69u8, 0x64u8]
}

pub fn kb_session_id() -> (r: Vec<u8>)
    ensures
        r@ == k_session_id(),
{
    let v: Vec<u8> = vec![0x73u8, 0x65u8, 0x73u8, 0x73u8, 0x69u8, 0x6fu8, 0x6eu8, 0x5fu8, 0x69u8, 0x64u8];
    proof {
        assert(v@ =~= k_session_id());
    }
    v
}

pub open spec fn k_trace_id() -> Seq<u8> {
    seq![0x74u8, 0x72u8, 0x61u8, 0x63u8, 0x65u8, 0x5fu8, 0x69u8, 0x64u8]
}

pub fn kb_trace_id() -> (r: Vec<u8>)
    ensures
        r@ == k_trace_id(),
{
    let v: Vec<u8> = vec![0x74u8, 0x72u8, 0x61u8, 0x63u8, 0x65u8, 0x5fu8, 0x69u8, 0x64u8];
    proof {
        assert(v@ =~= k_trace_id());
    }
    v
}

pub open spec fn k_span_id() -> Seq<u8> {
    seq![0x73u8, 0x70u8, 0x61u8, 0x6eu8, 0x5fu8, 0x69u8, 0x64u8]
}

pub fn kb_span_id() -> (r: Vec<u8>)
    ensures
        r@ == k_span_id(),
{
    let v: Vec<u8> = vec![0x73u8, 0x70u8, 0x61u8, 0x6eu8, 0x5fu8, 0x69u8, 0x64u8];
    proof {
        assert(v@ =~= k_span_id());
    }
    v
}

pub open spec fn k_parent_span_id() -> Seq<u8> {
    seq![0x70u8, 0x61u8, 0x72u8, 0x65u8, 0x6eu8, 0x74u8, 0x5fu8, 0x73u8, 0x70u8, 0x61u8, 0x6eu8, 0x5fu8, 0x69u8, 0x64u8]
}

pub fn kb_parent_span_id() -> (r: Vec<u8>)
    ensures
        r@ == k_parent_span_id(),
{
    let v: Vec<u8> = vec![0x70u8, 0x61u8, 0x72u8, 0x65u8, 0x6eu8, 0x74u8, 0x5fu8, 0x73u8, 0x70u8, 0x61u8, 0x6eu8, 0x5fu8, 0x69u8, 0x64u8];
    proof {
        assert(v@ =~= k_parent_span_id());
    }
    v
}

pub open spec fn k_prev_hash_b64() -> Seq<u8> {
    seq![0x70u8, 0x72u8, 0x65u8, 0x76u8, 0x5fu8, 0x68u8, 0x61u8, 0x73u8, 0x68u8, 0x5fu8, 0x62u8, 0x36u8, 0x34u8]
}

pub fn kb_prev_hash_b64() -> (r: Vec<u8>)
    ensures
        r@ == k_prev_hash_b64(),
{
    let v: Vec<u8> = vec![0x70u8, 0x72u8, 0x65u8, 0x76u8, 0x5fu8, 0x68u8, 0x61u8, 0x73u8, 0x68u8, 0x5fu8, 0x62u8, 0x36u8, 0x34u8];
    proof {
        assert(v@ =~= k_prev_hash_b64());
    }
    v
}

pub open spec fn k_entry_hash_b64() -> Seq<u8> {
    seq![0x65u8, 0x6eu8, 0x74u8, 0x72u8, 0x79u8, 0x5fu8, 0x68u8, 0x61u8, 0x73u8, 0x68u8, 0x5fu8, 0x62u8, 0x36u8, 0x34u8]
}

pub fn kb_entry_hash_b64() -> (r: Vec<u8>)
    ensures
        r@ == k_entry_hash_b64(),
{
    let v: Vec<u8> = vec![0x65u8, 0x6eu8, 0x74u8, 0x72u8, 0x79u8, 0x5fu8, 0x68u8, 0x61u8, 0x73u8, 0x68u8, 0x5fu8, 0x62u8, 0x36u8, 0x34u8];
    proof {
        assert(v@ =~= k_entry_hash_b64());
    }
    v
}

pub open spec fn k_hash_alg() -> Seq<u8> {
    seq![0x68u8, 0x61u8, 0x73u8, 0x68u8, 0x5fu8, 0x61u8, 0x6cu8, 0x67u8]
}

pub fn kb_hash_alg() -> (r: Vec<u8>)
    ensures
        r@ == k_hash_alg(),
{
    let v: Vec<u8> = vec![0x68u8, 0x61u8, 0x73u8, 0x68u8, 0x5fu8, 0x61u8, 0x6cu8, 0x67u8];
    proof {
        assert(v@ =~= k_hash_alg());
    }
    v
}

pub open spec fn k_version() -> Seq<u8> {
    seq![0x76u8, 0x65u8, 0x72u8, 0x73u8, 0x69u8, 0x6fu8, 0x6eu8]
}

pub fn kb_version() -> (r: Vec<u8>)
    ensures
        r@ == k_version(),
{
    let v: Vec<u8> = vec![0x76u8, 0x65u8, 0x72u8, 0x73u8, 0x69u8, 0x6fu8, 0x6eu8];
    proof {
        assert(v@ =~= k_version());
    }
    v
}

pub open spec fn k_created_ts_ms() -> Seq<u8> {
    seq![0x63u8, 0x72u8, 0x65u8, 0x61u8, 0x74u8, 0x65u8, 0x64u8, 0x5fu8, 0x74u8, 0x73u8, 0x5fu8, 0x6du8, 0x73u8]
}

pub fn kb_created_ts_ms() -> (r: Vec<u8>)
    ensures
        r@ == k_created_ts_ms(),
{
    let v: Vec<u8> = vec![0x63u8, 0x72u8, 0x65u8, 0x61u8, 0x74u8, 0x65u8, 0x64u8, 0x5fu8, 0x74u8, 0x73u8, 0x5fu8, 0x6du8, 0x73u8];
    proof {
        assert(v@ =~= k_created_ts_ms());
    }
    v
}

pub open spec fn k_last_event_id() -> Seq<u8> {
    seq![0x6cu8, 0x61u8, 0x73u8, 0x74u8, 0x5fu8, 0x65u8, 0x76u8, 0x65u8, 0x6eu8, 0x74u8, 0x5fu8, 0x69u8, 0x64u8]
}

pub fn kb_last_event_id() -> (r: Vec<u8>)
    ensures
        r@ == k_last_event_id(),
{
    let v: Vec<u8> = vec![0x6cu8, 0x61u8, 0x73u8, 0x74u8, 0x5fu8, 0x65u8, 0x76u8, 0x65u8, 0x6eu8, 0x74u8, 0x5fu8, 0x69u8, 0x64u8];
    proof {
        assert(v@ =~= k_last_event_id());
    }
    v
}

pub open spec fn k_last_entry_hash_b64() -> Seq<u8> {
    seq![0x6cu8, 0x61u8, 0x73u8, 0x74u8, 0x5fu8, 0x65u8, 0x6eu8, 0x74u8, 0x72u8, 0x79u8, 0x5fu8, 0x68u8, 0x61u8, 0x73u8, 0x68u8, 0x5fu8, 0x62u8, 0x36u8, 0x34u8]
}

pub fn kb_last_entry_hash_b64() -> (r: Vec<u8>)
    ensures
        r@ == k_last_entry_hash_b64(),
{
    let v: Vec<u8> = vec![0x6cu8, 0x61u8, 0x73u8, 0x74u8, 0x5fu8, 0x65u8, 0x6eu8, 0x74u8, 0x72u8, 0x79u8, 0x5fu8, 0x68u8, 0x61u8, 0x73u8, 0x68u8, 0x5fu8, 0x62u8, 0x36u8, 0x34u8];
    proof {
        assert(v@ =~= k_last_entry_hash_b64());
    }
    v
}

pub open spec fn k_signature_b64() -> Seq<u8> {
    seq![0x73u8, 0x69u8, 0x67u8, 0x6eu8, 0x61u8, 0x74u8, 0x75u8, 0x72u8, 0x65u8, 0x5fu8, 0x62u8, 0x36u8, 0x34u8]
}

pub fn kb_signature_b64() -> (r: Vec<u8>)
    ensures
        r@ == k_signature_b64(),
{
    let v: Vec<u8> = vec![0x73u8, 0x69u8, 0x67u8, 0x6eu8, 0x61u8, 0x74u8, 0x75u8, 0x72u8, 0x65u8, 0x5fu8, 0x62u8, 0x36u8, 0x34u8];
    proof {
        assert(v@ =~= k_signature_b64());
    }
    v
}

pub open spec fn k_key_id() -> Seq<u8> {
    seq![0x6bu8, 0x65u8, 0x79u8, 0x5fu8, 0x69u8, 0x64u8]
}

pub fn kb_key_id() -> (r: Vec<u8>)
    ensures
        r@ == k_key_id(),
{
    let v: Vec<u8> = vec![0x6bu8, 0x65u8, 0x79u8, 0x5fu8, 0x69u8, 0x64u8];
    proof {
        assert(v@ =~= k_key_id());
    }
    v
}

pub open spec fn k_sig_alg() -> Seq<u8> {
    seq![0x73u8, 0x69u8, 0x67u8, 0x5fu8, 0x61u8, 0x6cu8, 0x67u8]
}

pub fn kb_sig_alg() -> (r: Vec<u8>)
    ensures
        r@ == k_sig_alg(),
{
    let v: Vec<u8> = vec![0x73u8, 0x69u8, 0x67u8, 0x5fu8, 0x61u8, 0x6cu8, 0x67u8];
    proof {
        assert(v@ =~= k_sig_alg());
    }
    v
}

pub open spec fn k_recipient_key_id() -> Seq<u8> {
    seq![0x72u8, 0x65u8, 0x63u8, 0x69u8, 0x70u8, 0x69u8, 0x65u8, 0x6eu8, 0x74u8, 0x5fu8, 0x6bu8, 0x65u8, 0x79u8, 0x5fu8, 0x69u8, 0x64u8]
}

pub fn kb_recipient_key_id() -> (r: Vec<u8>)
    ensures
        r@ == k_recipient_key_id(),
{
    let v: Vec<u8> = vec![0x72u8, 0x65u8, 0x63u8, 0x69u8, 0x70u8, 0x69u8, 0x65u8, 0x6eu8, 0x74u8, 0x5fu8, 0x6bu8, 0x65u8, 0x79u8, 0x5fu8, 0x69u8, 0x64u8];
    proof {
        assert(v@ =~= k_recipient_key_id());
    }
    v
}

pub open spec fn k_ephemeral_pubkey_b64() -> Seq<u8> {
    seq![0x65u8, 0x70u8, 0x68u8, 0x65u8, 0x6du8, 0x65u8, 0x72u8, 0x61u8, 0x6cu8, 0x5fu8, 0x70u8, 0x75u8, 0x62u8, 0x6bu8, 0x65u8, 0x79u8, 0x5fu8, 0x62u8, 0x36u8, 0x34u8]
}

pub fn kb_ephemeral_pubkey_b64() -> (r: Vec<u8>)
    ensures
        r@ == k_ephemeral_pubkey_b64(),
{
    let v: Vec<u8> = vec![0x65u8, 0x70u8, 0x68u8, 0x65u8, 0x6du8, 0x65u8, 0x72u8, 0x61u8, 0x6cu8, 0x5fu8, 0x70u8, 0x75u8, 0x62u8, 0x6bu8, 0x65u8, 0x79u8, 0x5fu8, 0x62u8, 0x36u8, 0x34u8];
    proof {
        assert(v@ =~= k_ephemeral_pubkey_b64());
    }
    v
}

pub open spec fn k_wrap_nonce_b64() -> Seq<u8> {
    seq![0x77u8, 0x72u8, 0x61u8, 0x70u8, 0x5fu8, 0x6eu8, 0x6fu8, 0x6eu8, 0x63u8, 0x65u8, 0x5fu8, 0x62u8, 0x36u8, 0x34u8]
}

pub fn kb_wrap_nonce_b64() -> (r: Vec<u8>)
    ensures
        r@ == k_wrap_nonce_b64(),
{
    let v: Vec<u8> = vec![0x77u8, 0x72u8, 0x61u8, 0x70u8, 0x5fu8, 0x6eu8, 0x6fu8, 0x6eu8, 0x63u8, 0x65u8, 0x5fu8, 0x62u8, 0x36u8, 0x34u8];
    proof {
        assert(v@ =~= k_wrap_nonce_b64());
    }
    v
}

pub open spec fn k_wrapped_dek_b64() -> Seq<u8> {
    seq![0x77u8, 0x72u8, 0x61u8, 0x70u8, 0x70u8, 0x65u8, 0x64u8, 0x5fu8, 0x64u8, 0x65u8, 0x6bu8, 0x5fu8, 0x62u8, 0x36u8, 0x34u8]
}

pub fn kb_wrapped_dek_b64() -> (r: Vec<u8>)
    ensures
        r@ == k_wrapped_dek_b64(),
{
    let v: Vec<u8> = vec![0x77u8, 0x72u8, 0x61u8, 0x70u8, 0x70u8, 0x65u8, 0x64u8, 0x5fu8, 0x64u8, 0x65u8, 0x6bu8, 0x5fu8, 0x62u8, 0x36u8, 0x34u8];
    proof {
        assert(v@ =~= k_wrapped_dek_b64());
    }
    v
}

pub open spec fn k_kex_alg() -> Seq<u8> {
    seq![0x6bu8, 0x65u8, 0x78u8, 0x5fu8, 0x61u8, 0x6cu8, 0x67u8]
}

pub fn kb_kex_alg() -> (r: Vec<u8>)
    ensures
        r@ == k_kex_alg(),
{
    let v: Vec<u8> = vec![0x6bu8, 0x65u8, 0x78u8, 0x5fu8, 0x61u8, 0x6cu8, 0x67u8];
    proof {
        assert(v@ =~= k_kex_alg());
    }
    v
}

pub open spec fn k_kdf_alg() -> Seq<u8> {
    seq![0x6bu8, 0x64u8, 0x66u8, 0x5fu8, 0x61u8, 0x6cu8, 0x67u8]
}

pub fn kb_kdf_alg() -> (r: Vec<u8>)
    ensures
        r@ == k_kdf_alg(),
{
    let v: Vec<u8> = vec![0x6bu8, 0x64u8, 0x66u8, 0x5fu8, 0x61u8, 0x6cu8, 0x67u8];
    proof {
        assert(v@ =~= k_kdf_alg());
    }
    v
}

pub open spec fn k_aead_alg() -> Seq<u8> {
    seq![0x61u8, 0x65u8, 0x61u8, 0x64u8, 0x5fu8, 0x61u8, 0x6cu8, 0x67u8]
}

pub fn kb_aead_alg() -> (r: Vec<u8>)
    ensures
        r@ == k_aead_alg(),
{
    let v: Vec<u8> = vec![0x61u8, 0x65u8, 0x61u8, 0x64u8, 0x5fu8, 0x61u8, 0x6cu8, 0x67u8];
    proof {
        assert(v@ =~= k_aead_alg());
    }
    v
}

pub open spec fn k_inner_type() -> Seq<u8> {
    seq![0x69u8, 0x6eu8, 0x6eu8, 0x65u8, 0x72u8, 0x5fu8, 0x74u8, 0x79u8, 0x70u8, 0x65u8]
}

pub fn kb_inner_type() -> (r: Vec<u8>)
    ensures
        r@ == k_inner_type(),
{
    let v: Vec<u8> = vec![0x69u8, 0x6eu8, 0x6eu8, 0x65u8, 0x72u8, 0x5fu8, 0x74u8, 0x79u8, 0x70u8, 0x65u8];
    proof {
        assert(v@ =~= k_inner_type());
    }
    v
}

pub open spec fn k_nonce_b64() -> Seq<u8> {
    seq![0x6eu8, 0x6fu8, 0x6eu8, 0x63u8, 0x65u8, 0x5fu8, 0x62u8, 0x36u8, 0x34u8]
}

pub fn kb_nonce_b64() -> (r: Vec<u8>)
    ensures
        r@ == k_nonce_b64(),
{
    let v: Vec<u8> = vec![0x6eu8, 0x6fu8, 0x6eu8, 0x63u8, 0x65u8, 0x5fu8, 0x62u8, 0x36u8, 0x34u8];
    proof {
        assert(v@ =~= k_nonce_b64());
    }
    v
}

pub open spec fn k_ciphertext_b64() -> Seq<u8> {
    seq![0x63u8, 0x69u8, 0x70u8, 0x68u8, 0x65u8, 0x72u8, 0x74u8, 0x65u8, 0x78u8, 0x74u8, 0x5fu8, 0x62u8, 0x36u8, 0x34u8]
}

pub fn kb_ciphertext_b64() -> (r: Vec<u8>)
    ensures
        r@ == k_ciphertext_b64(),
{
    let v: Vec<u8> = vec![0x63u8, 0x69u8, 0x70u8, 0x68u8, 0x65u8, 0x72u8, 0x74u8, 0x65u8, 0x78u8, 0x74u8, 0x5fu8, 0x62u8, 0x36u8, 0x34u8];
    proof {
        assert(v@ =~= k_ciphertext_b64());
    }
    v
}

pub open spec fn k_event() -> Seq<u8> {
    seq![0x45u8, 0x76u8, 0x65u8, 0x6eu8, 0x74u8]
}

pub fn kb_event() -> (r: Vec<u8>)
    ensures
        r@ == k_event(),
{
    let v: Vec<u8> = vec![0x45u8, 0x76u8, 0x65u8, 0x6eu8, 0x74u8];
    proof {
        assert(v@ =~= k_event());
    }
    v
}

pub open spec fn k_checkpoint() -> Seq<u8> {
    seq![0x43u8, 0x68u8, 0x65u8, 0x63u8, 0x6bu8, 0x70u8, 0x6fu8, 0x69u8, 0x6eu8, 0x74u8]
}

pub fn kb_checkpoint() -> (r: Vec<u8>)
    ensures
        r@ == k_checkpoint(),
{
    let v: Vec<u8> = vec![0x43u8, 0x68u8, 0x65u8, 0x63u8, 0x6bu8, 0x70u8, 0x6fu8, 0x69u8, 0x6eu8, 0x74u8];
    proof {
        assert(v@ =~= k_checkpoint());
    }
    v
}

pub open spec fn k_key_envelope() -> Seq<u8> {
    seq![0x4bu8, 0x65u8, 0x79u8, 0x45u8, 0x6eu8, 0x76u8, 0x65u8, 0x6cu8, 0x6fu8, 0x70u8, 0x65u8]
}

pub fn kb_key_envelope() -> (r: Vec<u8>)
    ensures
        r@ == k_key_envelope(),
{
    let v: Vec<u8> = vec![0x4bu8, 0x65u8, 0x79u8, 0x45u8, 0x6eu8, 0x76u8, 0x65u8, 0x6cu8, 0x6fu8, 0x70u8, 0x65u8];
    proof {
        assert(v@ =~= k_key_envelope());
    }
    v
}

pub open spec fn k_encrypted() -> Seq<u8> {
    seq![0x45u8, 0x6eu8, 0x63u8, 0x72u8, 0x79u8, 0x70u8, 0x74u8, 0x65u8, 0x64u8]
}

pub fn kb_encrypted() -> (r: Vec<u8>)
    ensures
        r@ == k_encrypted(),
{
    let v: Vec<u8> = vec![0x45u8, 0x6eu8, 0x63u8, 0x72u8, 0x79u8, 0x70u8, 0x74u8, 0x65u8, 0x64u8];
    proof {
        assert(v@ =~= k_encrypted());
    }
    v
}

pub open spec fn k_inbound() -> Seq<u8> {
    seq![0x49u8, 0x6eu8, 0x62u8, 0x6fu8, 0x75u8, 0x6eu8, 0x64u8]
}

pub fn kb_inbound() -> (r: Vec<u8>)
    ensures
        r@ == k_inbound(),
{
    let v: Vec<u8> = vec![0x49u8, 0x6eu8, 0x62u8, 0x6fu8, 0x75u8, 0x6eu8, 0x64u8];
    proof {
        assert(v@ =~= k_inbound());
    }
    v
}

pub open spec fn k_outbound() -> Seq<u8> {
    seq![0x4fu8, 0x75u8, 0x74u8, 0x62u8, 0x6fu8, 0x75u8, 0x6eu8, 0x64u8]
}

pub fn kb_outbound() -> (r: Vec<u8>)
    ensures
        r@ == k_outbound(),
{
    let v: Vec<u8> = vec![0x4fu8, 0x75u8, 0x74u8, 0x62u8, 0x6fu8, 0x75u8, 0x6eu8, 0x64u8];
    proof {
        assert(v@ =~= k_outbound());
    }
    v
}

pub open spec fn k_alg_blake3() -> Seq<u8> {
    seq![0x62u8, 0x6cu8, 0x61u8, 0x6bu8, 0x65u8, 0x33u8]
}

pub fn kb_alg_blake3() -> (r: Vec<u8>)
    ensures
        r@ == k_alg_blake3(),
{
    let v: Vec<u8> = vec![0x62u8, 0x6cu8, 0x61u8, 0x6bu8, 0x65u8, 0x33u8];
    proof {
        assert(v@ =~= k_alg_blake3());
    }
    v
}

pub open spec fn k_alg_ed25519() -> Seq<u8> {
    seq![0x65u8, 0x64u8, 0x32u8, 0x35u8, 0x35u8, 0x31u8, 0x39u8]
}

pub fn kb_alg_ed25519() -> (r: Vec<u8>)
    ensures
        r@ == k_alg_ed25519(),
{
    let v: Vec<u8> = vec![0x65u8, 0x64u8, 0x32u8, 0x35u8, 0x35u8, 0x31u8, 0x39u8];
    proof {
        assert(v@ =~= k_alg_ed25519());
    }
    v
}

pub open spec fn k_alg_x25519() -> Seq<u8> {
    seq![0x78u8, 0x32u8, 0x35u8, 0x35u8, 0x31u8, 0x39u8]
}

pub fn kb_alg_x25519() -> (r: Vec<u8>)
    ensures
        r@ == k_alg_x25519(),
{
    let v: Vec<u8> = vec![0x78u8, 0x32u8, 0x35u8, 0x35u8, 0x31u8, 0x39u8];
    proof {
        assert(v@ =~= k_alg_x25519());
    }
    v
}

pub open spec fn k_alg_hkdf_sha256() -> Seq<u8> {
    seq![0x68u8, 0x6bu8, 0x64u8, 0x66u8, 0x2du8, 0x73u8, 0x68u8, 0x61u8, 0x32u8, 0x35u8, 0x36u8]
}

pub fn kb_alg_hkdf_sha256() -> (r: Vec<u8>)
    ensures
        r@ == k_alg_hkdf_sha256(),
{
    let v: Vec<u8> = vec![0x68u8, 0x6bu8, 0x64u8, 0x66u8, 0x2du8, 0x73u8, 0x68u8, 0x61u8, 0x32u8, 0x35u8, 0x36u8];
    proof {
        assert(v@ =~= k_alg_hkdf_sha256());
    }
    v
}

pub open spec fn k_alg_chacha20poly1305() -> Seq<u8> {
    seq![0x63u8, 0x68u8, 0x61u8, 0x63u8, 0x68u8, 0x61u8, 0x32u8, 0x30u8, 0x70u8, 0x6fu8, 0x6cu8, 0x79u8, 0x31u8, 0x33u8, 0x30u8, 0x35u8]
}

pub fn kb_alg_chacha20poly1305() -> (r: Vec<u8>)
    ensures
        r@ == k_alg_chacha20poly1305(),
{
    let v: Vec<u8> = vec![0x63u8, 0x68u8, 0x61u8, 0x63u8, 0x68u8, 0x61u8, 0x32u8, 0x30u8, 0x70u8, 0x6fu8, 0x6cu8, 0x79u8, 0x31u8, 0x33u8, 0x30u8, 0x35u8];
    proof {
        assert(v@ =~= k_alg_chacha20poly1305());
    }
    v
}

pub open spec fn k_dek_wrap_info() -> Seq<u8> {
    seq![0x73u8, 0x65u8, 0x6eu8, 0x74u8, 0x69u8, 0x6eu8, 0x65u8, 0x6cu8, 0x2fu8, 0x64u8, 0x65u8, 0x6bu8, 0x2du8, 0x77u8, 0x72u8, 0x61u8, 0x70u8, 0x2fu8, 0x76u8, 0x31u8]
}

pub fn kb_dek_wrap_info() -> (r: Vec<u8>)
    ensures
        r@ == k_dek_wrap_info(),
{
    let v: Vec<u8> = vec![0x73u8, 0x65u8, 0x6eu8, 0x74u8, 0x69u8, 0x6eu8, 0x65u8, 0x6cu8, 0x2fu8, 0x64u8, 0x65u8, 0x6bu8, 0x2du8, 0x77u8, 0x72u8, 0x61u8, 0x70u8, 0x2fu8, 0x76u8, 0x31u8];
    proof {
        assert(v@ =~= k_dek_wrap_info());
    }
    v
}

pub open spec fn k_id() -> Seq<u8> {
    seq![0x69u8, 0x64u8]
}

pub fn kb_id() -> (r: Vec<u8>)
    ensures
        r@ == k_id(),
{
    let v: Vec<u8> = vec![0x69u8, 0x64u8];
    proof {
        assert(v@ =~= k_id());
    }
    v
}

pub open spec fn k_result() -> Seq<u8> {
    seq![0x72u8, 0x65u8, 0x73u8, 0x75u8, 0x6cu8, 0x74u8]
}

pub fn kb_result() -> (r: Vec<u8>)
    ensures
        r@ == k_result(),
{
    let v: Vec<u8> = vec![0x72u8, 0x65u8, 0x73u8, 0x75u8, 0x6cu8, 0x74u8];
    proof {
        assert(v@ =~= k_result());
    }
    v
}

pub open spec fn k_error() -> Seq<u8> {
    seq![0x65u8, 0x72u8, 0x72u8, 0x6fu8, 0x72u8]
}

pub fn kb_error() -> (r: Vec<u8>)
    ensures
        r@ == k_error(),
{
    let v: Vec<u8> = vec![0x65u8, 0x72u8, 0x72u8, 0x6fu8, 0x72u8];
    proof {
        assert(v@ =~= k_error());
    }
    v
}


/// Every fixed string of the wire format is valid string content.
pub proof fn lemma_wire_names_ok()
    ensures
        str_content_ok(k_record_type()),
        str_content_ok(k_log()),
        str_content_ok(k_integrity()),
        str_content_ok(k_run_id()),
        str_content_ok(k_event_id()),
        str_content_ok(k_observed_ts_ms()),
        str_content_ok(k_timestamp()),
        str_content_ok(k_direction()),
        str_content_ok(k_method()),
        str_content_ok(k_request_id()),
        str_content_ok(k_latency_ms()),
        str_content_ok(k_payload()),
        str_content_ok(k_session_id()),
        str_content_ok(k_trace_id()),
        str_content_ok(k_span_id()),
        str_content_ok(k_parent_span_id()),
        str_content_ok(k_prev_hash_b64()),
        str_content_ok(k_entry_hash_b64()),
        str_content_ok(k_hash_alg()),
        str_content_ok(k_version()),
        str_content_ok(k_created_ts_ms()),
        str_content_ok(k_last_event_id()),
        str_content_ok(k_last_entry_hash_b64()),
        str_content_ok(k_signature_b64()),
        str_content_ok(k_key_id()),
        str_content_ok(k_sig_alg()),
        str_content_ok(k_recipient_key_id()),
        str_content_ok(k_ephemeral_pubkey_b64()),
        str_content_ok(k_wrap_nonce_b64()),
        str_content_ok(k_wrapped_dek_b64()),
        str_content_ok(k_kex_alg()),
        str_content_ok(k_kdf_alg()),
        str_content_ok(k_aead_alg()),
        str_content_ok(k_inner_type()),
        str_content_ok(k_nonce_b64()),
        str_content_ok(k_ciphertext_b64()),
        str_content_ok(k_event()),
        str_content_ok(k_checkpoint()),
        str_content_ok(k_key_envelope()),
        str_content_ok(k_encrypted()),
        str_content_ok(k_inbound()),
        str_content_ok(k_outbound()),
        str_content_ok(k_alg_blake3()),
        str_content_ok(k_alg_ed25519()),
        str_content_ok(k_alg_x25519()),
        str_content_ok(k_alg_hkdf_sha256()),
        str_content_ok(k_alg_chacha20poly1305()),
        str_content_ok(k_dek_wrap_info()),
        str_content_ok(k_id()),
        str_content_ok(k_result()),
        str_content_ok(k_error()),
{
    lemma_plain_str_ok(k_record_type());
    lemma_plain_str_ok(k_log());
    lemma_plain_str_ok(k_integrity());
    lemma_plain_str_ok(k_run_id());
    lemma_plain_str_ok(k_event_id());
    lemma_plain_str_ok(k_observed_ts_ms());
    lemma_plain_str_ok(k_timestamp());
    lemma_plain_str_ok(k_direction());
    lemma_plain_str_ok(k_method());
    lemma_plain_str_ok(k_request_id());
    lemma_plain_str_ok(k_latency_ms());
    lemma_plain_str_ok(k_payload());
    lemma_plain_str_ok(k_session_id());
    lemma_plain_str_ok(k_trace_id());
    lemma_plain_str_ok(k_span_id());
    lemma_plain_str_ok(k_parent_span_id());
    lemma_plain_str_ok(k_prev_hash_b64());
    lemma_plain_str_ok(k_entry_hash_b64());
    lemma_plain_str_ok(k_hash_alg());
    lemma_plain_str_ok(k_version());
    lemma_plain_str_ok(k_created_ts_ms());
    lemma_plain_str_ok(k_last_event_id());
    lemma_plain_str_ok(k_last_entry_hash_b64());
    lemma_plain_str_ok(k_signature_b64());
    lemma_plain_str_ok(k_key_id());
    lemma_plain_str_ok(k_sig_alg());
    lemma_plain_str_ok(k_recipient_key_id());
    lemma_plain_str_ok(k_ephemeral_pubkey_b64());
    lemma_plain_str_ok(k_wrap_nonce_b64());
    lemma_plain_str_ok(k_wrapped_dek_b64());
    lemma_plain_str_ok(k_kex_alg());
    lemma_plain_str_ok(k_kdf_alg());
    lemma_plain_str_ok(k_aead_alg());
    lemma_plain_str_ok(k_inner_type());
    lemma_plain_str_ok(k_nonce_b64());
    lemma_plain_str_ok(k_ciphertext_b64());
    lemma_plain_str_ok(k_event());
    lemma_plain_str_ok(k_checkpoint());
    lemma_plain_str_ok(k_key_envelope());
    lemma_plain_str_ok(k_encrypted());
    lemma_plain_str_ok(k_inbound());
    lemma_plain_str_ok(k_outbound());
    lemma_plain_str_ok(k_alg_blake3());
    lemma_plain_str_ok(k_alg_ed25519());
    lemma_plain_str_ok(k_alg_x25519());
    lemma_plain_str_ok(k_alg_hkdf_sha256());
    lemma_plain_str_ok(k_alg_chacha20poly1305());
    lemma_plain_str_ok(k_dek_wrap_info());
    lemma_plain_str_ok(k_id());
    lemma_plain_str_ok(k_result());
    lemma_plain_str_ok(k_error());
}

} // verus!
