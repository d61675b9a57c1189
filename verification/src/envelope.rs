//! The encryption layer of the audit log: the per-run data key, the
//! `KeyEnvelope` first line that wraps it to an X25519 recipient, and
//! the `Encrypted` records that carry AEAD-sealed inner lines.
use vstd::prelude::*;

use crate::codec::{b64_encode, b64_of, u64_to_dec};
use crate::crypto::{
    chacha_open, chacha_open_of, chacha_seal, chacha_seal_of, hkdf_sha256_expand32, hkdf32_of,
    x25519_base, x25519_derive_pub, x25519_of, x25519_shared,
};
use crate::errors::AuditError;
use crate::json::{Jv, JsonValue};
use crate::jtext::{parse_json, ser_value, to_json_bytes};
use crate::names::{
    k_aead_alg, k_alg_chacha20poly1305, k_alg_hkdf_sha256, k_alg_x25519, k_ciphertext_b64,
    k_dek_wrap_info, k_encrypted, k_ephemeral_pubkey_b64, k_inner_type, k_kdf_alg, k_key_envelope,
    k_kex_alg, k_nonce_b64, k_recipient_key_id, k_record_type, k_run_id, k_version,
    k_wrap_nonce_b64, k_wrapped_dek_b64, kb_aead_alg, kb_alg_chacha20poly1305,
    kb_alg_hkdf_sha256, kb_alg_x25519, kb_ciphertext_b64, kb_dek_wrap_info, kb_encrypted,
    kb_ephemeral_pubkey_b64, kb_inner_type, kb_kdf_alg, kb_key_envelope, kb_kex_alg, kb_nonce_b64,
    kb_recipient_key_id, kb_record_type, kb_run_id, kb_version, kb_wrap_nonce_b64,
    kb_wrapped_dek_b64,
};
use crate::records::{jv_u64, recipient_key_id, recipient_key_id_of};
use crate::order::{bytes_eq, copy_bytes};

verus! {

/// First line of an encrypted log: the wrapped data-encryption key.
pub struct KeyEnvelope {
    pub record_type: Vec<u8>,
    pub version: u64,
    pub run_id: Vec<u8>,
    pub recipient_key_id: Vec<u8>,
    pub ephemeral_pubkey_b64: Vec<u8>,
    pub wrap_nonce_b64: Vec<u8>,
    pub wrapped_dek_b64: Vec<u8>,
    pub kex_alg: Vec<u8>,
    pub kdf_alg: Vec<u8>,
    pub aead_alg: Vec<u8>,
}

pub struct KeyEnvelopeV {
    pub record_type: Seq<u8>,
    pub version: u64,
    pub run_id: Seq<u8>,
    pub recipient_key_id: Seq<u8>,
    pub ephemeral_pubkey_b64: Seq<u8>,
    pub wrap_nonce_b64: Seq<u8>,
    pub wrapped_dek_b64: Seq<u8>,
    pub kex_alg: Seq<u8>,
    pub kdf_alg: Seq<u8>,
    pub aead_alg: Seq<u8>,
}

impl View for KeyEnvelope {
    type V = KeyEnvelopeV;

    open spec fn view(&self) -> KeyEnvelopeV {
        KeyEnvelopeV {
            record_type: self.record_type@,
            version: self.version,
            run_id: self.run_id@,
            recipient_key_id: self.recipient_key_id@,
            ephemeral_pubkey_b64: self.ephemeral_pubkey_b64@,
            wrap_nonce_b64: self.wrap_nonce_b64@,
            wrapped_dek_b64: self.wrapped_dek_b64@,
            kex_alg: self.kex_alg@,
            kdf_alg: self.kdf_alg@,
            aead_alg: self.aead_alg@,
        }
    }
}

/// A sealed record line: what stands in the file in place of an
/// `Event` or `Checkpoint` when encryption is on.
pub struct EncryptedRecord {
    pub record_type: Vec<u8>,
    pub version: u64,
    pub run_id: Vec<u8>,
    pub inner_type: Vec<u8>,
    pub nonce_b64: Vec<u8>,
    pub ciphertext_b64: Vec<u8>,
}

pub struct EncryptedRecordV {
    pub record_type: Seq<u8>,
    pub version: u64,
    pub run_id: Seq<u8>,
    pub inner_type: Seq<u8>,
    pub nonce_b64: Seq<u8>,
    pub ciphertext_b64: Seq<u8>,
}

impl View for EncryptedRecord {
    type V = EncryptedRecordV;

    open spec fn view(&self) -> EncryptedRecordV {
        EncryptedRecordV {
            record_type: self.record_type@,
            version: self.version,
            run_id: self.run_id@,
            inner_type: self.inner_type@,
            nonce_b64: self.nonce_b64@,
            ciphertext_b64: self.ciphertext_b64@,
        }
    }
}

/// The key that wraps the data key: HKDF-SHA256 of the shared secret
/// with this log format's info string.
pub open spec fn wrap_key_of(shared: Seq<u8>) -> Seq<u8> {
    hkdf32_of(shared, k_dek_wrap_info())
}

/// The associated data of a sealed record: `run_id | inner_type`.
pub open spec fn aad_of(run_id: Seq<u8>, inner_type: Seq<u8>) -> Seq<u8> {
    run_id + seq![0x7cu8] + inner_type
}

/// How a well-made envelope relates to the recipient public key and
/// the data key it carries: there is an ephemeral scalar and a nonce
/// such that the envelope's fields encode the ephemeral public key
/// and a ciphertext that opens to the data key under the wrap key of
/// the shared secret.
pub open spec fn envelope_binds(
    env: KeyEnvelopeV,
    recipient_pub: Seq<u8>,
    dek: Seq<u8>,
    eph_sk: Seq<u8>,
    nonce: Seq<u8>,
) -> bool {
    &&& eph_sk.len() == 32
    &&& nonce.len() == 12
    &&& dek.len() == 32
    &&& x25519_of(eph_sk, x25519_base()).len() == 32
    &&& env.ephemeral_pubkey_b64 == b64_of(x25519_of(eph_sk, x25519_base()))
    &&& env.wrap_nonce_b64 == b64_of(nonce)
    &&& exists|wrapped: Seq<u8>|
        env.wrapped_dek_b64 == b64_of(wrapped) && wrapped.len() == dek.len() + 16
            && #[trigger] chacha_open_of(
            wrap_key_of(x25519_of(eph_sk, recipient_pub)),
            nonce,
            env.run_id,
            wrapped,
        ) == Some(dek)
}

/// What unwrapping can return: a data key that some decoding of the
/// envelope's fields opens to, under the recipient's secret.
pub open spec fn env_unwraps_to(env: KeyEnvelopeV, sk: Seq<u8>, dk: Seq<u8>) -> bool {
    exists|eph_pub: Seq<u8>, nonce: Seq<u8>, wrapped: Seq<u8>|
        {
            &&& env.ephemeral_pubkey_b64 == b64_of(eph_pub)
            &&& eph_pub.len() == 32
            &&& env.wrap_nonce_b64 == b64_of(nonce)
            &&& nonce.len() == 12
            &&& env.wrapped_dek_b64 == b64_of(wrapped)
            &&& #[trigger] chacha_open_of(
                wrap_key_of(x25519_of(sk, eph_pub)),
                nonce,
                env.run_id,
                wrapped,
            ) == Some(dk)
            &&& dk.len() == 32
        }
}

/// Builds the envelope that wraps `dek` to `recipient_pub`: a fresh
/// ephemeral X25519 key agrees on a shared secret, HKDF derives the
/// wrap key, and ChaCha20-Poly1305 seals the data key with the run id
/// as associated data.  The envelope is also guaranteed to unwrap to
/// `dek` under any secret whose public key is `recipient_pub`.
pub fn build_envelope(run_id: &Vec<u8>, recipient_pub: &Vec<u8>, dek: &Vec<u8>) -> (r: KeyEnvelope)
    requires
        recipient_pub@.len() == 32,
        dek@.len() == 32,
    ensures
        r@.record_type == k_key_envelope(),
        r@.version == 1,
        r@.run_id == run_id@,
        r@.recipient_key_id == recipient_key_id_of(recipient_pub@),
        r@.kex_alg == k_alg_x25519(),
        r@.kdf_alg == k_alg_hkdf_sha256(),
        r@.aead_alg == k_alg_chacha20poly1305(),
        exists|eph_sk: Seq<u8>, nonce: Seq<u8>|
            #[trigger] envelope_binds(r@, recipient_pub@, dek@, eph_sk, nonce),
        forall|sk: Seq<u8>|
            sk.len() == 32 && recipient_pub@ == x25519_of(sk, x25519_base())
                ==> #[trigger] env_unwraps_to(r@, sk, dek@),
        crate::json::str_content_ok(run_id@) ==> env_rec_wf(r@),
        env_fixed_ok(r@),
{
    let eph_sk = crate::crypto::random_bytes(32);
    let eph_pk = x25519_derive_pub(&eph_sk);
    let shared = x25519_shared(&eph_sk, recipient_pub);
    let wrap_key = hkdf_sha256_expand32(&shared, &kb_dek_wrap_info());
    let nonce = crate::crypto::random_bytes(12);
    let wrapped = chacha_seal(&wrap_key, &nonce, run_id, dek);
    let env = KeyEnvelope {
        record_type: kb_key_envelope(),
        version: 1,
        run_id: copy_bytes(run_id),
        recipient_key_id: recipient_key_id(recipient_pub),
        ephemeral_pubkey_b64: b64_encode(&eph_pk),
        wrap_nonce_b64: b64_encode(&nonce),
        wrapped_dek_b64: b64_encode(&wrapped),
        kex_alg: kb_alg_x25519(),
        kdf_alg: kb_alg_hkdf_sha256(),
        aead_alg: kb_alg_chacha20poly1305(),
    };
    proof {
        crate::names::lemma_wire_names_ok();
        assert(envelope_binds(env@, recipient_pub@, dek@, eph_sk@, nonce@)) by {
            assert(chacha_open_of(
                wrap_key_of(x25519_of(eph_sk@, recipient_pub@)),
                nonce@,
                env@.run_id,
                wrapped@,
            ) == Some(dek@));
        }
        assert forall|sk: Seq<u8>|
            sk.len() == 32 && recipient_pub@ == x25519_of(sk, x25519_base())
                implies #[trigger] env_unwraps_to(env@, sk, dek@) by {
            // the shared secret agrees from both sides of the exchange
            assert(shared@ == x25519_of(sk, x25519_of(eph_sk@, x25519_base())));
            assert(chacha_open_of(
                wrap_key_of(x25519_of(sk, eph_pk@)),
                nonce@,
                env@.run_id,
                wrapped@,
            ) == Some(dek@));
        }
    }
    env
}

/// Unwraps the data key from an envelope with the recipient's secret
/// key.  Fails exactly when no decoding of the envelope opens under
/// this secret; in particular it succeeds on every envelope built for
/// this secret's public key.
pub fn unwrap_envelope(env: &KeyEnvelope, recipient_sk: &Vec<u8>) -> (r: Result<
    Vec<u8>,
    AuditError,
>)
    requires
        recipient_sk@.len() == 32,
    ensures
        r matches Ok(dk) ==> env_unwraps_to(env@, recipient_sk@, dk@) && dk@.len() == 32 && (
        forall|dk2: Seq<u8>| #[trigger] env_unwraps_to(env@, recipient_sk@, dk2) ==> dk2 == dk@),
        r is Err ==> (forall|dk: Seq<u8>| !#[trigger] env_unwraps_to(env@, recipient_sk@, dk)),
        r matches Err(e) ==> (e == AuditError::BadEnvelope || e == AuditError::CryptoFailure),
{
    let eph_pk = match crate::codec::b64_decode(&env.ephemeral_pubkey_b64) {
        Some(v) => v,
        None => {
            proof {
                assert forall|dk: Seq<u8>| !#[trigger] env_unwraps_to(
                    env@,
                    recipient_sk@,
                    dk,
                ) by {}
            }
            return Err(AuditError::BadEnvelope);
        },
    };
    if eph_pk.len() != 32 {
        return Err(AuditError::BadEnvelope);
    }
    let nonce = match crate::codec::b64_decode(&env.wrap_nonce_b64) {
        Some(v) => v,
        None => {
            return Err(AuditError::BadEnvelope);
        },
    };
    if nonce.len() != 12 {
        return Err(AuditError::BadEnvelope);
    }
    let wrapped = match crate::codec::b64_decode(&env.wrapped_dek_b64) {
        Some(v) => v,
        None => {
            return Err(AuditError::BadEnvelope);
        },
    };
    let shared = x25519_shared(recipient_sk, &eph_pk);
    let wrap_key = hkdf_sha256_expand32(&shared, &kb_dek_wrap_info());
    let dk = match chacha_open(&wrap_key, &nonce, &env.run_id, &wrapped) {
        Some(v) => v,
        None => {
            return Err(AuditError::CryptoFailure);
        },
    };
    if dk.len() != 32 {
        return Err(AuditError::CryptoFailure);
    }
    proof {
        assert(wrap_key@ == wrap_key_of(x25519_of(recipient_sk@, eph_pk@)));
        assert(chacha_open_of(
            wrap_key_of(x25519_of(recipient_sk@, eph_pk@)),
            nonce@,
            env@.run_id,
            wrapped@,
        ) == Some(dk@));
        assert(env_unwraps_to(env@, recipient_sk@, dk@));
        assert forall|dk2: Seq<u8>|
            #[trigger] env_unwraps_to(env@, recipient_sk@, dk2) implies dk2 == dk@ by {
            let (ep2, n2, w2) = choose|ep2: Seq<u8>, n2: Seq<u8>, w2: Seq<u8>|
                {
                    &&& env@.ephemeral_pubkey_b64 == b64_of(ep2)
                    &&& ep2.len() == 32
                    &&& env@.wrap_nonce_b64 == b64_of(n2)
                    &&& n2.len() == 12
                    &&& env@.wrapped_dek_b64 == b64_of(w2)
                    &&& #[trigger] chacha_open_of(
                        wrap_key_of(x25519_of(recipient_sk@, ep2)),
                        n2,
                        env@.run_id,
                        w2,
                    ) == Some(dk2)
                    &&& dk2.len() == 32
                };
            assert(ep2 == eph_pk@);
            assert(n2 == nonce@);
            assert(w2 == wrapped@);
        }
    }
    Ok(dk)
}

/// Seals one record line into an `Encrypted` record: ChaCha20-
/// Poly1305 over the line with a caller-supplied fresh nonce and the
/// run-and-type-bound associated data.
pub fn encrypt_record_line(
    dek: &Vec<u8>,
    run_id: &Vec<u8>,
    inner_type: &Vec<u8>,
    line: &Vec<u8>,
    nonce: &Vec<u8>,
) -> (r: EncryptedRecord)
    requires
        dek@.len() == 32,
        nonce@.len() == 12,
        line@.len() < crate::crypto::CHACHA_MAX_MSG,
    ensures
        r@.record_type == k_encrypted(),
        r@.version == 1,
        r@.run_id == run_id@,
        r@.inner_type == inner_type@,
        r@.nonce_b64 == b64_of(nonce@),
        r@.ciphertext_b64 == b64_of(
            chacha_seal_of(dek@, nonce@, aad_of(run_id@, inner_type@), line@),
        ),
        enc_opens_to(r@, dek@, line@),
        (crate::json::str_content_ok(run_id@) && crate::json::str_content_ok(inner_type@))
            ==> enc_rec_wf(r@),
        enc_fixed_ok(r@),
{
    let mut aad = copy_bytes(run_id);
    aad.push(0x7c);
    let it = copy_bytes(inner_type);
    crate::jtext::push_bytes(&mut aad, &it);
    proof {
        assert(aad@ =~= aad_of(run_id@, inner_type@));
    }
    let ct = chacha_seal(dek, nonce, &aad, line);
    proof {
        crate::names::lemma_wire_names_ok();
    }
    EncryptedRecord {
        record_type: kb_encrypted(),
        version: 1,
        run_id: copy_bytes(run_id),
        inner_type: it,
        nonce_b64: b64_encode(nonce),
        ciphertext_b64: b64_encode(&ct),
    }
}

/// What decryption can return for a sealed record: a line that some
/// decoding of its fields opens to under the data key and the
/// record's own associated data.
pub open spec fn enc_opens_to(rec: EncryptedRecordV, dek: Seq<u8>, line: Seq<u8>) -> bool {
    exists|nonce: Seq<u8>, ct: Seq<u8>|
        {
            &&& rec.nonce_b64 == b64_of(nonce)
            &&& nonce.len() == 12
            &&& rec.ciphertext_b64 == b64_of(ct)
            &&& #[trigger] chacha_open_of(dek, nonce, aad_of(rec.run_id, rec.inner_type), ct)
                == Some(line)
        }
}

/// Opens a sealed record with the data key.  Fails exactly when no
/// decoding of the record's fields opens under this key and this
/// record's associated data.
pub fn decrypt_record(rec: &EncryptedRecord, dek: &Vec<u8>) -> (r: Result<Vec<u8>, AuditError>)
    requires
        dek@.len() == 32,
    ensures
        r matches Ok(line) ==> enc_opens_to(rec@, dek@, line@) && (forall|l2: Seq<u8>|
            #[trigger] enc_opens_to(rec@, dek@, l2) ==> l2 == line@),
        r is Err ==> (forall|line: Seq<u8>| !#[trigger] enc_opens_to(rec@, dek@, line)),
        r matches Err(e) ==> (e == AuditError::SerializationError || e
            == AuditError::CryptoFailure),
{
    let nonce = match crate::codec::b64_decode(&rec.nonce_b64) {
        Some(v) => v,
        None => {
            return Err(AuditError::SerializationError);
        },
    };
    if nonce.len() != 12 {
        return Err(AuditError::SerializationError);
    }
    let ct = match crate::codec::b64_decode(&rec.ciphertext_b64) {
        Some(v) => v,
        None => {
            return Err(AuditError::SerializationError);
        },
    };
    let mut aad = copy_bytes(&rec.run_id);
    aad.push(0x7c);
    crate::jtext::push_bytes(&mut aad, &rec.inner_type);
    proof {
        assert(aad@ =~= aad_of(rec@.run_id, rec@.inner_type));
    }
    match chacha_open(dek, &nonce, &aad, &ct) {
        Some(line) => {
            proof {
                assert(enc_opens_to(rec@, dek@, line@));
                assert forall|l2: Seq<u8>|
                    #[trigger] enc_opens_to(rec@, dek@, l2) implies l2 == line@ by {
                    let (n2, c2) = choose|n2: Seq<u8>, c2: Seq<u8>|
                        {
                            &&& rec@.nonce_b64 == b64_of(n2)
                            &&& n2.len() == 12
                            &&& rec@.ciphertext_b64 == b64_of(c2)
                            &&& #[trigger] chacha_open_of(
                                dek@,
                                n2,
                                aad_of(rec@.run_id, rec@.inner_type),
                                c2,
                            ) == Some(l2)
                        };
                    assert(n2 == nonce@);
                    assert(c2 == ct@);
                }
            }
            Ok(line)
        },
        None => Err(AuditError::CryptoFailure),
    }
}


/// The JSON object of a key envelope.
pub open spec fn env_jv(e: KeyEnvelopeV) -> Jv {
    Jv::Obj(
        seq![
            (k_record_type(), Jv::Str(e.record_type)),
            (k_version(), jv_u64(e.version)),
            (k_run_id(), Jv::Str(e.run_id)),
            (k_recipient_key_id(), Jv::Str(e.recipient_key_id)),
            (k_ephemeral_pubkey_b64(), Jv::Str(e.ephemeral_pubkey_b64)),
            (k_wrap_nonce_b64(), Jv::Str(e.wrap_nonce_b64)),
            (k_wrapped_dek_b64(), Jv::Str(e.wrapped_dek_b64)),
            (k_kex_alg(), Jv::Str(e.kex_alg)),
            (k_kdf_alg(), Jv::Str(e.kdf_alg)),
            (k_aead_alg(), Jv::Str(e.aead_alg)),
        ],
    )
}

/// The JSON object of a sealed record.
pub open spec fn enc_jv(e: EncryptedRecordV) -> Jv {
    Jv::Obj(
        seq![
            (k_record_type(), Jv::Str(e.record_type)),
            (k_version(), jv_u64(e.version)),
            (k_run_id(), Jv::Str(e.run_id)),
            (k_inner_type(), Jv::Str(e.inner_type)),
            (k_nonce_b64(), Jv::Str(e.nonce_b64)),
            (k_ciphertext_b64(), Jv::Str(e.ciphertext_b64)),
        ],
    )
}

/// The canonical line of a key envelope.
pub fn envelope_to_line(e: &KeyEnvelope) -> (r: Vec<u8>)
    ensures
        r@ == ser_value(env_jv(e@)),
{
    let mut m: Vec<(Vec<u8>, JsonValue)> = Vec::new();
    m.push((kb_record_type(), JsonValue::Str(copy_bytes(&e.record_type))));
    m.push((kb_version(), JsonValue::Num(u64_to_dec(e.version))));
    m.push((kb_run_id(), JsonValue::Str(copy_bytes(&e.run_id))));
    m.push((kb_recipient_key_id(), JsonValue::Str(copy_bytes(&e.recipient_key_id))));
    m.push((kb_ephemeral_pubkey_b64(), JsonValue::Str(copy_bytes(&e.ephemeral_pubkey_b64))));
    m.push((kb_wrap_nonce_b64(), JsonValue::Str(copy_bytes(&e.wrap_nonce_b64))));
    m.push((kb_wrapped_dek_b64(), JsonValue::Str(copy_bytes(&e.wrapped_dek_b64))));
    m.push((kb_kex_alg(), JsonValue::Str(copy_bytes(&e.kex_alg))));
    m.push((kb_kdf_alg(), JsonValue::Str(copy_bytes(&e.kdf_alg))));
    m.push((kb_aead_alg(), JsonValue::Str(copy_bytes(&e.aead_alg))));
    let out = JsonValue::Obj(m);
    proof {
        let rv = out.deep_view()->Obj_0;
        let ev = env_jv(e@)->Obj_0;
        assert forall|j: int| 0 <= j < rv.len() implies rv[j] == ev[j] by {
            assert(rv[j] == (m@[j].0@, m@[j].1.deep_view()));
        }
        assert(rv =~= ev);
        assert(out.deep_view() =~= env_jv(e@));
    }
    to_json_bytes(&out)
}

/// The canonical line of a sealed record.
pub fn encrypted_to_line(e: &EncryptedRecord) -> (r: Vec<u8>)
    ensures
        r@ == ser_value(enc_jv(e@)),
{
    let mut m: Vec<(Vec<u8>, JsonValue)> = Vec::new();
    m.push((kb_record_type(), JsonValue::Str(copy_bytes(&e.record_type))));
    m.push((kb_version(), JsonValue::Num(u64_to_dec(e.version))));
    m.push((kb_run_id(), JsonValue::Str(copy_bytes(&e.run_id))));
    m.push((kb_inner_type(), JsonValue::Str(copy_bytes(&e.inner_type))));
    m.push((kb_nonce_b64(), JsonValue::Str(copy_bytes(&e.nonce_b64))));
    m.push((kb_ciphertext_b64(), JsonValue::Str(copy_bytes(&e.ciphertext_b64))));
    let out = JsonValue::Obj(m);
    proof {
        let rv = out.deep_view()->Obj_0;
        let ev = enc_jv(e@)->Obj_0;
        assert forall|j: int| 0 <= j < rv.len() implies rv[j] == ev[j] by {
            assert(rv[j] == (m@[j].0@, m@[j].1.deep_view()));
        }
        assert(rv =~= ev);
        assert(out.deep_view() =~= enc_jv(e@));
    }
    to_json_bytes(&out)
}

/// An envelope whose textual fields are all valid string content, as
/// every envelope this crate writes is.
pub open spec fn env_rec_wf(e: KeyEnvelopeV) -> bool {
    &&& crate::json::str_content_ok(e.record_type)
    &&& crate::json::str_content_ok(e.run_id)
    &&& crate::json::str_content_ok(e.recipient_key_id)
    &&& crate::json::str_content_ok(e.ephemeral_pubkey_b64)
    &&& crate::json::str_content_ok(e.wrap_nonce_b64)
    &&& crate::json::str_content_ok(e.wrapped_dek_b64)
    &&& crate::json::str_content_ok(e.kex_alg)
    &&& crate::json::str_content_ok(e.kdf_alg)
    &&& crate::json::str_content_ok(e.aead_alg)
}

/// The fixed fields every key envelope of this format carries, as
/// the format pins them: the type tag, the version and the three
/// algorithm names.
pub open spec fn env_fixed_ok(e: KeyEnvelopeV) -> bool {
    &&& e.record_type == k_key_envelope()
    &&& e.version == 1
    &&& e.kex_alg == k_alg_x25519()
    &&& e.kdf_alg == k_alg_hkdf_sha256()
    &&& e.aead_alg == k_alg_chacha20poly1305()
}

/// The fixed fields of a sealed record: the type tag and the
/// version.  The inner type is data; the associated data binds it.
pub open spec fn enc_fixed_ok(e: EncryptedRecordV) -> bool {
    &&& e.record_type == k_encrypted()
    &&& e.version == 1
}

/// A sealed record whose textual fields are all valid string content.
pub open spec fn enc_rec_wf(e: EncryptedRecordV) -> bool {
    &&& crate::json::str_content_ok(e.record_type)
    &&& crate::json::str_content_ok(e.run_id)
    &&& crate::json::str_content_ok(e.inner_type)
    &&& crate::json::str_content_ok(e.nonce_b64)
    &&& crate::json::str_content_ok(e.ciphertext_b64)
}

/// The JSON tree of a well-formed envelope is well-formed.
pub proof fn lemma_env_jv_wf(e: KeyEnvelopeV)
    requires
        env_rec_wf(e),
    ensures
        crate::json::wf_json(env_jv(e)),
{
    crate::names::lemma_wire_names_ok();
    crate::codec::lemma_dec_of_digits(e.version as nat);
    let tm = env_jv(e)->Obj_0;
    assert forall|i: int| 0 <= i < tm.len() implies crate::json::str_content_ok(
        #[trigger] tm[i].0,
    ) by {}
    assert forall|i: int| 0 <= i < tm.len() implies crate::json::wf_json(#[trigger] tm[i].1) by {}
    crate::json::lemma_wf_members_build(tm);
}

/// The JSON tree of a well-formed sealed record is well-formed.
pub proof fn lemma_enc_jv_wf(e: EncryptedRecordV)
    requires
        enc_rec_wf(e),
    ensures
        crate::json::wf_json(enc_jv(e)),
{
    crate::names::lemma_wire_names_ok();
    crate::codec::lemma_dec_of_digits(e.version as nat);
    let tm = enc_jv(e)->Obj_0;
    assert forall|i: int| 0 <= i < tm.len() implies crate::json::str_content_ok(
        #[trigger] tm[i].0,
    ) by {}
    assert forall|i: int| 0 <= i < tm.len() implies crate::json::wf_json(#[trigger] tm[i].1) by {}
    crate::json::lemma_wf_members_build(tm);
}

/// Reads a key envelope from its JSON tree: exact for every tree
/// that is the canonical object of some envelope.
#[verifier::rlimit(100)]
fn env_of_json(v: &JsonValue) -> (r: Option<KeyEnvelope>)
    ensures
        forall|ev: KeyEnvelopeV| v.deep_view() == #[trigger] env_jv(ev) ==> (match r {
            Some(e) => e@ == ev,
            None => false,
        }),
        r matches Some(e) ==> (crate::json::wf_json(v.deep_view()) ==> env_rec_wf(e@)),
{
    let m = match v {
        JsonValue::Obj(m) => m,
        _ => {
            proof {
                assert forall|ev: KeyEnvelopeV| v.deep_view() != #[trigger] env_jv(ev) by {}
            }
            return None;
        },
    };
    proof {
        assert(v.deep_view()->Obj_0 =~= crate::json::members_view(m@));
    }
    let ghost mv = crate::json::members_view(m@);
    if m.len() != 10 {
        proof {
            assert forall|ev: KeyEnvelopeV| v.deep_view() != #[trigger] env_jv(ev) by {}
        }
        return None;
    }
    let keys_ok = bytes_eq(&m[0].0, &kb_record_type()) && bytes_eq(&m[1].0, &kb_version())
        && bytes_eq(&m[2].0, &kb_run_id()) && bytes_eq(&m[3].0, &kb_recipient_key_id())
        && bytes_eq(&m[4].0, &kb_ephemeral_pubkey_b64()) && bytes_eq(&m[5].0, &kb_wrap_nonce_b64())
        && bytes_eq(&m[6].0, &kb_wrapped_dek_b64()) && bytes_eq(&m[7].0, &kb_kex_alg())
        && bytes_eq(&m[8].0, &kb_kdf_alg()) && bytes_eq(&m[9].0, &kb_aead_alg());
    let record_type = crate::records::as_str(&m[0].1);
    let version = crate::records::as_u64(&m[1].1);
    let run_id = crate::records::as_str(&m[2].1);
    let recipient_key_id = crate::records::as_str(&m[3].1);
    let ephemeral_pubkey_b64 = crate::records::as_str(&m[4].1);
    let wrap_nonce_b64 = crate::records::as_str(&m[5].1);
    let wrapped_dek_b64 = crate::records::as_str(&m[6].1);
    let kex_alg = crate::records::as_str(&m[7].1);
    let kdf_alg = crate::records::as_str(&m[8].1);
    let aead_alg = crate::records::as_str(&m[9].1);
    proof {
        assert forall|ev: KeyEnvelopeV|
            v.deep_view() == #[trigger] env_jv(ev) implies mv[0].1 == Jv::Str(ev.record_type)
            && mv[1].1 == jv_u64(ev.version) && mv[2].1 == Jv::Str(ev.run_id) && mv[3].1
            == Jv::Str(ev.recipient_key_id) && mv[4].1 == Jv::Str(ev.ephemeral_pubkey_b64)
            && mv[5].1 == Jv::Str(ev.wrap_nonce_b64) && mv[6].1 == Jv::Str(ev.wrapped_dek_b64)
            && mv[7].1 == Jv::Str(ev.kex_alg) && mv[8].1 == Jv::Str(ev.kdf_alg) && mv[9].1
            == Jv::Str(ev.aead_alg) && mv[0].0 == k_record_type() && mv[1].0 == k_version()
            && mv[2].0 == k_run_id() && mv[3].0 == k_recipient_key_id() && mv[4].0
            == k_ephemeral_pubkey_b64() && mv[5].0 == k_wrap_nonce_b64() && mv[6].0
            == k_wrapped_dek_b64() && mv[7].0 == k_kex_alg() && mv[8].0 == k_kdf_alg() && mv[9].0
            == k_aead_alg() by {}
    }
    match (keys_ok, record_type, version, run_id, recipient_key_id, ephemeral_pubkey_b64,
        wrap_nonce_b64, wrapped_dek_b64, kex_alg, kdf_alg, aead_alg) {
        (
            true,
            Some(record_type),
            Some(version),
            Some(run_id),
            Some(recipient_key_id),
            Some(ephemeral_pubkey_b64),
            Some(wrap_nonce_b64),
            Some(wrapped_dek_b64),
            Some(kex_alg),
            Some(kdf_alg),
            Some(aead_alg),
        ) => {
            let out = KeyEnvelope {
                record_type,
                version,
                run_id,
                recipient_key_id,
                ephemeral_pubkey_b64,
                wrap_nonce_b64,
                wrapped_dek_b64,
                kex_alg,
                kdf_alg,
                aead_alg,
            };
            proof {
                assert forall|ev: KeyEnvelopeV|
                    v.deep_view() == #[trigger] env_jv(ev) implies out@ == ev by {}
                if crate::json::wf_json(v.deep_view()) {
                    assert(crate::json::wf_members(mv));
                    crate::json::lemma_wf_members_index(mv);
                    assert(mv[0].1 == m@[0].1.deep_view() && mv[2].1 == m@[2].1.deep_view()
                        && mv[3].1 == m@[3].1.deep_view() && mv[4].1 == m@[4].1.deep_view()
                        && mv[5].1 == m@[5].1.deep_view() && mv[6].1 == m@[6].1.deep_view()
                        && mv[7].1 == m@[7].1.deep_view() && mv[8].1 == m@[8].1.deep_view()
                        && mv[9].1 == m@[9].1.deep_view());
                    assert(crate::json::str_content_ok(mv[0].0) && crate::json::str_content_ok(
                        mv[2].0,
                    ) && crate::json::str_content_ok(mv[3].0) && crate::json::str_content_ok(
                        mv[4].0,
                    ) && crate::json::str_content_ok(mv[5].0) && crate::json::str_content_ok(
                        mv[6].0,
                    ) && crate::json::str_content_ok(mv[7].0) && crate::json::str_content_ok(
                        mv[8].0,
                    ) && crate::json::str_content_ok(mv[9].0));
                    assert(crate::json::wf_json(mv[0].1) && crate::json::wf_json(mv[2].1)
                        && crate::json::wf_json(mv[3].1) && crate::json::wf_json(mv[4].1)
                        && crate::json::wf_json(mv[5].1) && crate::json::wf_json(mv[6].1)
                        && crate::json::wf_json(mv[7].1) && crate::json::wf_json(mv[8].1)
                        && crate::json::wf_json(mv[9].1));
                    assert(mv[0].1 == Jv::Str(out@.record_type));
                    assert(mv[2].1 == Jv::Str(out@.run_id));
                    assert(mv[3].1 == Jv::Str(out@.recipient_key_id));
                    assert(mv[4].1 == Jv::Str(out@.ephemeral_pubkey_b64));
                    assert(mv[5].1 == Jv::Str(out@.wrap_nonce_b64));
                    assert(mv[6].1 == Jv::Str(out@.wrapped_dek_b64));
                    assert(mv[7].1 == Jv::Str(out@.kex_alg));
                    assert(mv[8].1 == Jv::Str(out@.kdf_alg));
                    assert(mv[9].1 == Jv::Str(out@.aead_alg));
                    assert(env_rec_wf(out@));
                }
            }
            Some(out)
        },
        _ => {
            proof {
                assert forall|ev: KeyEnvelopeV| v.deep_view() != #[trigger] env_jv(ev) by {}
            }
            None
        },
    }
}

/// Reads a sealed record from its JSON tree: exact for every tree
/// that is the canonical object of some sealed record.
#[verifier::rlimit(100)]
fn enc_of_json(v: &JsonValue) -> (r: Option<EncryptedRecord>)
    ensures
        forall|ev: EncryptedRecordV| v.deep_view() == #[trigger] enc_jv(ev) ==> (match r {
            Some(e) => e@ == ev,
            None => false,
        }),
        r matches Some(e) ==> (crate::json::wf_json(v.deep_view()) ==> enc_rec_wf(e@)),
{
    let m = match v {
        JsonValue::Obj(m) => m,
        _ => {
            proof {
                assert forall|ev: EncryptedRecordV| v.deep_view() != #[trigger] enc_jv(ev) by {}
            }
            return None;
        },
    };
    proof {
        assert(v.deep_view()->Obj_0 =~= crate::json::members_view(m@));
    }
    let ghost mv = crate::json::members_view(m@);
    if m.len() != 6 {
        proof {
            assert forall|ev: EncryptedRecordV| v.deep_view() != #[trigger] enc_jv(ev) by {}
        }
        return None;
    }
    let keys_ok = bytes_eq(&m[0].0, &kb_record_type()) && bytes_eq(&m[1].0, &kb_version())
        && bytes_eq(&m[2].0, &kb_run_id()) && bytes_eq(&m[3].0, &kb_inner_type()) && bytes_eq(
        &m[4].0,
        &kb_nonce_b64(),
    ) && bytes_eq(&m[5].0, &kb_ciphertext_b64());
    let record_type = crate::records::as_str(&m[0].1);
    let version = crate::records::as_u64(&m[1].1);
    let run_id = crate::records::as_str(&m[2].1);
    let inner_type = crate::records::as_str(&m[3].1);
    let nonce_b64 = crate::records::as_str(&m[4].1);
    let ciphertext_b64 = crate::records::as_str(&m[5].1);
    proof {
        assert forall|ev: EncryptedRecordV|
            v.deep_view() == #[trigger] enc_jv(ev) implies mv[0].1 == Jv::Str(ev.record_type)
            && mv[1].1 == jv_u64(ev.version) && mv[2].1 == Jv::Str(ev.run_id) && mv[3].1
            == Jv::Str(ev.inner_type) && mv[4].1 == Jv::Str(ev.nonce_b64) && mv[5].1 == Jv::Str(
            ev.ciphertext_b64,
        ) && mv[0].0 == k_record_type() && mv[1].0 == k_version() && mv[2].0 == k_run_id()
            && mv[3].0 == k_inner_type() && mv[4].0 == k_nonce_b64() && mv[5].0
            == k_ciphertext_b64() by {}
    }
    match (keys_ok, record_type, version, run_id, inner_type, nonce_b64, ciphertext_b64) {
        (
            true,
            Some(record_type),
            Some(version),
            Some(run_id),
            Some(inner_type),
            Some(nonce_b64),
            Some(ciphertext_b64),
        ) => {
            let out = EncryptedRecord {
                record_type,
                version,
                run_id,
                inner_type,
                nonce_b64,
                ciphertext_b64,
            };
            proof {
                assert forall|ev: EncryptedRecordV|
                    v.deep_view() == #[trigger] enc_jv(ev) implies out@ == ev by {}
                if crate::json::wf_json(v.deep_view()) {
                    assert(crate::json::wf_members(mv));
                    crate::json::lemma_wf_members_index(mv);
                    assert(mv[0].1 == m@[0].1.deep_view() && mv[2].1 == m@[2].1.deep_view()
                        && mv[3].1 == m@[3].1.deep_view() && mv[4].1 == m@[4].1.deep_view()
                        && mv[5].1 == m@[5].1.deep_view());
                    assert(crate::json::str_content_ok(mv[0].0) && crate::json::str_content_ok(
                        mv[2].0,
                    ) && crate::json::str_content_ok(mv[3].0) && crate::json::str_content_ok(
                        mv[4].0,
                    ) && crate::json::str_content_ok(mv[5].0));
                    assert(crate::json::wf_json(mv[0].1) && crate::json::wf_json(mv[2].1)
                        && crate::json::wf_json(mv[3].1) && crate::json::wf_json(mv[4].1)
                        && crate::json::wf_json(mv[5].1));
                    assert(mv[0].1 == Jv::Str(out@.record_type));
                    assert(mv[2].1 == Jv::Str(out@.run_id));
                    assert(mv[3].1 == Jv::Str(out@.inner_type));
                    assert(mv[4].1 == Jv::Str(out@.nonce_b64));
                    assert(mv[5].1 == Jv::Str(out@.ciphertext_b64));
                    assert(enc_rec_wf(out@));
                }
            }
            Some(out)
        },
        _ => {
            proof {
                assert forall|ev: EncryptedRecordV| v.deep_view() != #[trigger] enc_jv(ev) by {}
            }
            None
        },
    }
}

/// Reads a key-envelope line: accepted exactly when the line is the
/// canonical serialization of an envelope, which is then returned.
pub fn parse_envelope(line: &Vec<u8>) -> (r: Option<KeyEnvelope>)
    ensures
        r matches Some(e) ==> line@ == ser_value(env_jv(e@)) && env_rec_wf(e@) && env_fixed_ok(
            e@,
        ),
        forall|ev: KeyEnvelopeV|
            env_rec_wf(ev) && env_fixed_ok(ev) && line@ == ser_value(#[trigger] env_jv(ev)) ==> (
            match r {
                Some(e) => e@ == ev,
                None => false,
            }),
{
    let v = match parse_json(line) {
        Some(v) => v,
        None => {
            proof {
                assert forall|ev: KeyEnvelopeV| !(env_rec_wf(ev) && line@ == ser_value(
                    #[trigger] env_jv(ev),
                )) by {
                    if env_rec_wf(ev) && line@ == ser_value(env_jv(ev)) {
                        lemma_env_jv_wf(ev);
                    }
                }
            }
            return None;
        },
    };
    proof {
        assert forall|ev: KeyEnvelopeV|
            env_rec_wf(ev) && line@ == ser_value(#[trigger] env_jv(ev)) implies v.deep_view()
            == env_jv(ev) by {
            lemma_env_jv_wf(ev);
        }
    }
    let env = match env_of_json(&v) {
        Some(e) => e,
        None => {
            proof {
                assert forall|ev: KeyEnvelopeV| !(env_rec_wf(ev) && line@ == ser_value(
                    #[trigger] env_jv(ev),
                )) by {
                    if env_rec_wf(ev) && line@ == ser_value(env_jv(ev)) {
                        assert(v.deep_view() == env_jv(ev));
                    }
                }
            }
            return None;
        },
    };
    if !(bytes_eq(&env.record_type, &kb_key_envelope()) && env.version == 1 && bytes_eq(
        &env.kex_alg,
        &kb_alg_x25519(),
    ) && bytes_eq(&env.kdf_alg, &kb_alg_hkdf_sha256()) && bytes_eq(
        &env.aead_alg,
        &kb_alg_chacha20poly1305(),
    )) {
        proof {
            assert forall|ev: KeyEnvelopeV| !(env_rec_wf(ev) && env_fixed_ok(ev) && line@
                == ser_value(#[trigger] env_jv(ev))) by {
                if env_rec_wf(ev) && env_fixed_ok(ev) && line@ == ser_value(env_jv(ev)) {
                    assert(v.deep_view() == env_jv(ev));
                    assert(env@ == ev);
                }
            }
        }
        return None;
    }
    let line2 = envelope_to_line(&env);
    proof {
        assert forall|ev: KeyEnvelopeV|
            env_rec_wf(ev) && line@ == ser_value(#[trigger] env_jv(ev)) implies line2@ == line@
            && env@ == ev by {
            assert(v.deep_view() == env_jv(ev));
        }
    }
    if bytes_eq(&line2, line) {
        Some(env)
    } else {
        proof {
            assert forall|ev: KeyEnvelopeV| !(env_rec_wf(ev) && line@ == ser_value(
                #[trigger] env_jv(ev),
            )) by {
                if env_rec_wf(ev) && line@ == ser_value(env_jv(ev)) {
                    assert(line2@ == line@);
                }
            }
        }
        None
    }
}

/// Reads a sealed-record line: accepted exactly when the line is the
/// canonical serialization of a sealed record, which is then
/// returned.
pub fn parse_encrypted(line: &Vec<u8>) -> (r: Option<EncryptedRecord>)
    ensures
        r matches Some(e) ==> line@ == ser_value(enc_jv(e@)) && enc_rec_wf(e@) && enc_fixed_ok(
            e@,
        ),
        forall|ev: EncryptedRecordV|
            enc_rec_wf(ev) && enc_fixed_ok(ev) && line@ == ser_value(#[trigger] enc_jv(ev)) ==> (
            match r {
                Some(e) => e@ == ev,
                None => false,
            }),
{
    let v = match parse_json(line) {
        Some(v) => v,
        None => {
            proof {
                assert forall|ev: EncryptedRecordV| !(enc_rec_wf(ev) && line@ == ser_value(
                    #[trigger] enc_jv(ev),
                )) by {
                    if enc_rec_wf(ev) && line@ == ser_value(enc_jv(ev)) {
                        lemma_enc_jv_wf(ev);
                    }
                }
            }
            return None;
        },
    };
    proof {
        assert forall|ev: EncryptedRecordV|
            enc_rec_wf(ev) && line@ == ser_value(#[trigger] enc_jv(ev)) implies v.deep_view()
            == enc_jv(ev) by {
            lemma_enc_jv_wf(ev);
        }
    }
    let rec = match enc_of_json(&v) {
        Some(e) => e,
        None => {
            proof {
                assert forall|ev: EncryptedRecordV| !(enc_rec_wf(ev) && line@ == ser_value(
                    #[trigger] enc_jv(ev),
                )) by {
                    if enc_rec_wf(ev) && line@ == ser_value(enc_jv(ev)) {
                        assert(v.deep_view() == enc_jv(ev));
                    }
                }
            }
            return None;
        },
    };
    if !(bytes_eq(&rec.record_type, &kb_encrypted()) && rec.version == 1) {
        proof {
            assert forall|ev: EncryptedRecordV| !(enc_rec_wf(ev) && enc_fixed_ok(ev) && line@
                == ser_value(#[trigger] enc_jv(ev))) by {
                if enc_rec_wf(ev) && enc_fixed_ok(ev) && line@ == ser_value(enc_jv(ev)) {
                    assert(v.deep_view() == enc_jv(ev));
                    assert(rec@ == ev);
                }
            }
        }
        return None;
    }
    let line2 = encrypted_to_line(&rec);
    proof {
        assert forall|ev: EncryptedRecordV|
            enc_rec_wf(ev) && line@ == ser_value(#[trigger] enc_jv(ev)) implies line2@ == line@
            && rec@ == ev by {
            assert(v.deep_view() == enc_jv(ev));
        }
    }
    if bytes_eq(&line2, line) {
        Some(rec)
    } else {
        proof {
            assert forall|ev: EncryptedRecordV| !(enc_rec_wf(ev) && line@ == ser_value(
                #[trigger] enc_jv(ev),
            )) by {
                if enc_rec_wf(ev) && line@ == ser_value(enc_jv(ev)) {
                    assert(line2@ == line@);
                }
            }
        }
        None
    }
}

} // verus!
