//! The audit sink: the single writer of the log.  It owns the chain
//! state (previous hash, last event id, checkpoint counter) and, in
//! encrypted mode, the per-run data key.  Each append returns the
//! exact line(s) to write; the caller owns the file.
//!
//! The sink's well-formedness invariant carries the hash chain: every
//! written event's entry hash extends the previous one, starting from
//! 32 zero bytes.
use vstd::prelude::*;

use crate::codec::b64_of;
use crate::crypto::{ed25519_pub_of, ed25519_sig_of, random_bytes, wipe_bytes};
use crate::envelope::{
    KeyEnvelopeV, enc_jv, enc_opens_to, encrypt_record_line, encrypted_to_line, env_jv,
    env_unwraps_to, envelope_to_line, build_envelope,
};
use crate::events::{McpLog, McpLogV, view_opt_bytes};
use crate::jtext::ser_value;
use crate::names::{k_alg_blake3, k_alg_ed25519, k_checkpoint, k_event, kb_checkpoint, kb_event};
use crate::errors::AuditError;
use crate::records::{
    AuditRecord, AuditRecordV, IntegrityFieldsV, entry_hash_of, event_record_of,
    make_checkpoint_record, make_event_record, preimage_of, record_jv, record_to_line,
    signing_key_id_of,
};
use crate::crypto::x25519_of;
use crate::crypto::x25519_base;

verus! {

/// The initial chain state: 32 zero bytes.
pub open spec fn zeros32() -> Seq<u8> {
    Seq::new(32, |i: int| 0u8)
}

/// A fresh all-zero 32-byte vector.
pub fn zeros32_vec() -> (r: Vec<u8>)
    ensures
        r@ == zeros32(),
{
    let mut v: Vec<u8> = Vec::new();
    while v.len() < 32
        invariant
            v@.len() <= 32,
            forall|i: int| 0 <= i < v@.len() ==> #[trigger] v@[i] == 0u8,
        decreases 32 - v@.len(),
    {
        v.push(0u8);
    }
    proof {
        assert(v@ =~= zeros32());
    }
    v
}

pub enum SinkMode {
    Plain,
    Encrypted { dek: Vec<u8> },
}

/// The checkpoint record a given signing seed produces at a given
/// chain position.
pub open spec fn checkpoint_record_of(
    seed: Seq<u8>,
    run_id: Seq<u8>,
    created_ts_ms: u64,
    last_event_id: u64,
    tip: Seq<u8>,
) -> AuditRecordV {
    AuditRecordV::Checkpoint {
        run_id: run_id,
        created_ts_ms: created_ts_ms,
        last_event_id: last_event_id,
        last_entry_hash_b64: b64_of(tip),
        signature_b64: b64_of(ed25519_sig_of(seed, preimage_of(run_id, last_event_id, tip))),
        key_id: signing_key_id_of(ed25519_pub_of(seed)),
        hash_alg: k_alg_blake3(),
        sig_alg: k_alg_ed25519(),
        version: 1,
    }
}

/// A written line carrying `inner` (the canonical line of an inner
/// record): the line itself in plaintext mode, or the line of a
/// sealed record of this run that opens to it.
pub open spec fn carries_line(
    written: Seq<u8>,
    encrypted: bool,
    dek: Seq<u8>,
    run_id: Seq<u8>,
    inner_type: Seq<u8>,
    inner: Seq<u8>,
) -> bool {
    if encrypted {
        exists|e: crate::envelope::EncryptedRecordV|
            {
                &&& written == ser_value(#[trigger] enc_jv(e))
                &&& e.record_type == crate::names::k_encrypted()
                &&& e.version == 1
                &&& e.run_id == run_id
                &&& e.inner_type == inner_type
                &&& enc_opens_to(e, dek, inner)
                &&& (crate::json::str_content_ok(run_id) && crate::json::str_content_ok(
                    inner_type,
                )) ==> crate::envelope::enc_rec_wf(e)
            }
    } else {
        written == inner
    }
}

pub struct AuditSink {
    pub mode: SinkMode,
    pub run_id: Vec<u8>,
    pub prev_hash: Vec<u8>,
    pub last_event_id: u64,
    pub since_checkpoint: u64,
    pub checkpoint_every: u64,
    pub signing_seed: Option<Vec<u8>>,
    /// The logs appended so far, in order.
    pub events: Ghost<Seq<McpLogV>>,
    /// The entry hash of each appended log.
    pub hashes: Ghost<Seq<Seq<u8>>>,
}

impl AuditSink {
    /// The chain value preceding position `i`.
    pub open spec fn chain_prev(self, i: int) -> Seq<u8> {
        if i == 0 {
            zeros32()
        } else {
            self.hashes@[i - 1]
        }
    }

    /// The event record written at position `i`.
    pub open spec fn event_record(self, i: int) -> AuditRecordV {
        AuditRecordV::Event {
            log: self.events@[i],
            integrity: IntegrityFieldsV {
                prev_hash_b64: b64_of(self.chain_prev(i)),
                entry_hash_b64: b64_of(self.hashes@[i]),
                hash_alg: k_alg_blake3(),
                version: 1,
            },
        }
    }

    pub open spec fn encrypted(self) -> bool {
        self.mode is Encrypted
    }

    pub open spec fn dek_view(self) -> Seq<u8> {
        match self.mode {
            SinkMode::Encrypted { dek } => dek@,
            SinkMode::Plain => Seq::empty(),
        }
    }

    pub open spec fn seed_view(self) -> Option<Seq<u8>> {
        view_opt_bytes(self.signing_seed)
    }

    /// Well-formedness: the recorded hashes form the chain of the
    /// recorded events, and the live fields mirror the chain tip.
    pub open spec fn wf(self) -> bool {
        &&& self.prev_hash@.len() == 32
        &&& (self.mode matches SinkMode::Encrypted { dek } ==> dek@.len() == 32)
        &&& (self.signing_seed matches Some(s) ==> s@.len() == 32)
        &&& self.hashes@.len() == self.events@.len()
        &&& (forall|i: int|
            0 <= i < self.events@.len() ==> #[trigger] self.hashes@[i] == entry_hash_of(
                self.chain_prev(i),
                self.events@[i],
            ))
        &&& self.prev_hash@ == self.chain_prev(self.events@.len() as int)
        &&& self.last_event_id == (if self.events@.len() == 0 {
            0u64
        } else {
            self.events@.last().event_id
        })
    }

    /// Opens a plaintext sink.
    pub fn open_plain(run_id: Vec<u8>, checkpoint_every: u64, signing_seed: Option<Vec<u8>>) -> (r:
        AuditSink)
        requires
            signing_seed matches Some(s) ==> s@.len() == 32,
        ensures
            r.wf(),
            r.events@.len() == 0,
            !r.encrypted(),
            r.run_id@ == run_id@,
            r.checkpoint_every == checkpoint_every,
            r.seed_view() == view_opt_bytes(signing_seed),
            r.since_checkpoint == 0,
            r.last_event_id == 0,
    {
        AuditSink {
            mode: SinkMode::Plain,
            run_id,
            prev_hash: zeros32_vec(),
            last_event_id: 0,
            since_checkpoint: 0,
            checkpoint_every,
            signing_seed,
            events: Ghost(Seq::empty()),
            hashes: Ghost(Seq::empty()),
        }
    }

    /// Opens an encrypting sink: draws a fresh random data key, wraps
    /// it to the recipient, and returns the sink together with the
    /// `KeyEnvelope` line to write first.  The envelope unwraps to
    /// this sink's data key under any secret key whose public key is
    /// `recipient_pub`.
    pub fn open_encrypted(
        run_id: Vec<u8>,
        checkpoint_every: u64,
        signing_seed: Option<Vec<u8>>,
        recipient_pub: &Vec<u8>,
    ) -> (r: (AuditSink, Vec<u8>))
        requires
            signing_seed matches Some(s) ==> s@.len() == 32,
            recipient_pub@.len() == 32,
        ensures
            r.0.wf(),
            r.0.events@.len() == 0,
            r.0.encrypted(),
            r.0.dek_view().len() == 32,
            r.0.run_id@ == run_id@,
            r.0.checkpoint_every == checkpoint_every,
            r.0.seed_view() == view_opt_bytes(signing_seed),
            r.0.since_checkpoint == 0,
            r.0.last_event_id == 0,
            exists|env: KeyEnvelopeV|
                {
                    &&& r.1@ == ser_value(#[trigger] env_jv(env))
                    &&& env.record_type == crate::names::k_key_envelope()
                    &&& env.run_id == run_id@
                    &&& env.recipient_key_id == crate::records::recipient_key_id_of(
                        recipient_pub@,
                    )
                    &&& forall|sk: Seq<u8>|
                        sk.len() == 32 && recipient_pub@ == x25519_of(sk, x25519_base())
                            ==> #[trigger] env_unwraps_to(env, sk, r.0.dek_view())
                },
    {
        let dek = random_bytes(32);
        let env = build_envelope(&run_id, recipient_pub, &dek);
        let line = envelope_to_line(&env);
        let sink = AuditSink {
            mode: SinkMode::Encrypted { dek },
            run_id,
            prev_hash: zeros32_vec(),
            last_event_id: 0,
            since_checkpoint: 0,
            checkpoint_every,
            signing_seed,
            events: Ghost(Seq::empty()),
            hashes: Ghost(Seq::empty()),
        };
        proof {
            assert(env@.run_id == sink.run_id@);
            assert(line@ == ser_value(env_jv(env@)));
        }
        (sink, line)
    }

    /// Appends one log record to the chain and returns the line(s)
    /// to write: the event line, followed by a checkpoint line when
    /// the checkpoint interval is reached and a signing key is
    /// configured.  In encrypted mode a record whose line would
    /// exceed the cipher's message limit is skipped whole: the chain
    /// does not advance for a skipped record.
    pub fn append_event(&mut self, log: McpLog, now_ms: u64) -> (r: Result<
        Vec<Vec<u8>>,
        AuditError,
    >)
        requires
            old(self).wf(),
            old(self).since_checkpoint < u64::MAX,
        ensures
            (r is Ok) == (!old(self).encrypted() || ({
                let tip = entry_hash_of(old(self).prev_hash@, log@);
                let cp_due = old(self).signing_seed is Some && old(self).since_checkpoint + 1
                    >= old(self).checkpoint_every;
                &&& ser_value(record_jv(event_record_of(old(self).prev_hash@, log@))).len()
                    < crate::crypto::CHACHA_MAX_MSG
                &&& (cp_due ==> ser_value(
                    record_jv(
                        checkpoint_record_of(
                            old(self).seed_view()->0,
                            old(self).run_id@,
                            now_ms,
                            log.event_id,
                            tip,
                        ),
                    ),
                ).len() < crate::crypto::CHACHA_MAX_MSG)
            })),
            r matches Err(e) ==> ({
                &&& e == AuditError::SerializationError
                &&& final(self).wf()
                &&& final(self).events@ == old(self).events@
                &&& final(self).hashes@ == old(self).hashes@
                &&& final(self).prev_hash@ == old(self).prev_hash@
                &&& final(self).last_event_id == old(self).last_event_id
                &&& final(self).since_checkpoint == old(self).since_checkpoint
                &&& final(self).encrypted() == old(self).encrypted()
                &&& final(self).dek_view() == old(self).dek_view()
                &&& final(self).run_id@ == old(self).run_id@
                &&& final(self).checkpoint_every == old(self).checkpoint_every
                &&& final(self).seed_view() == old(self).seed_view()
            }),
            r matches Ok(out) ==> ({
                &&& final(self).wf()
                &&& final(self).events@ == old(self).events@.push(log@)
                &&& final(self).hashes@ == old(self).hashes@.push(
                    entry_hash_of(old(self).prev_hash@, log@),
                )
                &&& final(self).prev_hash@ == entry_hash_of(old(self).prev_hash@, log@)
                &&& final(self).last_event_id == log.event_id
                &&& final(self).encrypted() == old(self).encrypted()
                &&& final(self).dek_view() == old(self).dek_view()
                &&& final(self).run_id@ == old(self).run_id@
                &&& final(self).checkpoint_every == old(self).checkpoint_every
                &&& final(self).seed_view() == old(self).seed_view()
                &&& 1 <= out@.len() <= 2
                &&& carries_line(
                    out@[0]@,
                    old(self).encrypted(),
                    old(self).dek_view(),
                    old(self).run_id@,
                    k_event(),
                    ser_value(
                        record_jv(final(self).event_record(old(self).events@.len() as int)),
                    ),
                )
                &&& (out@.len() == 2) == (old(self).signing_seed is Some
                    && old(self).since_checkpoint + 1 >= old(self).checkpoint_every)
                &&& out@.len() == 2 ==> carries_line(
                    out@[1]@,
                    old(self).encrypted(),
                    old(self).dek_view(),
                    old(self).run_id@,
                    k_checkpoint(),
                    ser_value(
                        record_jv(
                            checkpoint_record_of(
                                old(self).seed_view()->0,
                                old(self).run_id@,
                                now_ms,
                                log.event_id,
                                entry_hash_of(old(self).prev_hash@, log@),
                            ),
                        ),
                    ),
                )
                &&& final(self).since_checkpoint == (if out@.len() == 2 {
                    0u64
                } else {
                    (old(self).since_checkpoint + 1) as u64
                })
            }),
    {
        let ghost pos = self.events@.len() as int;
        let write_cp = match &self.signing_seed {
            Some(_) => self.since_checkpoint + 1 >= self.checkpoint_every,
            None => false,
        };
        let (rec, new_hash) = make_event_record(&self.prev_hash, log);
        let ghost logv = (match rec {
            AuditRecord::Event { ref log, .. } => log@,
            _ => arbitrary(),
        });
        let event_line = record_to_line(&rec);
        let last_id = (match &rec {
            AuditRecord::Event { log, .. } => log.event_id,
            _ => 0,
        });
        // build the due checkpoint against the would-be tip, before
        // committing anything
        let cp_line_opt: Option<Vec<u8>> = if write_cp {
            let seed = match &self.signing_seed {
                Some(s) => s,
                None => {
                    proof {
                        assert(false);
                    }
                    &self.prev_hash
                },
            };
            let cp = make_checkpoint_record(seed, &self.run_id, now_ms, last_id, &new_hash);
            Some(record_to_line(&cp))
        } else {
            None
        };
        // size admission: the cipher refuses oversized lines, so the
        // record is skipped whole and the chain does not advance
        let encrypted = match &self.mode {
            SinkMode::Plain => false,
            SinkMode::Encrypted { .. } => true,
        };
        if encrypted {
            if !((event_line.len() as u64) < crate::crypto::CHACHA_MAX_MSG) {
                return Err(AuditError::SerializationError);
            }
            match &cp_line_opt {
                Some(cp_line) => {
                    if !((cp_line.len() as u64) < crate::crypto::CHACHA_MAX_MSG) {
                        return Err(AuditError::SerializationError);
                    }
                },
                None => {},
            }
        }
        // commit
        let mut out: Vec<Vec<u8>> = Vec::new();
        match &self.mode {
            SinkMode::Plain => {
                out.push(event_line);
            },
            SinkMode::Encrypted { dek } => {
                let nonce = random_bytes(12);
                let enc = encrypt_record_line(dek, &self.run_id, &kb_event(), &event_line, &nonce);
                out.push(encrypted_to_line(&enc));
            },
        }
        proof {
            self.events@ = self.events@.push(logv);
            self.hashes@ = self.hashes@.push(new_hash@);
        }
        self.prev_hash = new_hash;
        self.last_event_id = last_id;
        match cp_line_opt {
            Some(cp_line) => {
                match &self.mode {
                    SinkMode::Plain => {
                        out.push(cp_line);
                    },
                    SinkMode::Encrypted { dek } => {
                        let nonce = random_bytes(12);
                        let enc = encrypt_record_line(
                            dek,
                            &self.run_id,
                            &kb_checkpoint(),
                            &cp_line,
                            &nonce,
                        );
                        out.push(encrypted_to_line(&enc));
                    },
                }
                self.since_checkpoint = 0;
            },
            None => {
                self.since_checkpoint = self.since_checkpoint + 1;
            },
        }
        proof {
            assert(final(self).events@ == old(self).events@.push(log@));
            assert forall|i: int|
                0 <= i < final(self).events@.len() implies #[trigger] final(self).hashes@[i]
                == entry_hash_of(final(self).chain_prev(i), final(self).events@[i]) by {
                if i < old(self).events@.len() {
                    assert(final(self).hashes@[i] == old(self).hashes@[i]);
                    assert(final(self).events@[i] == old(self).events@[i]);
                    assert(final(self).chain_prev(i) == old(self).chain_prev(i));
                } else {
                    assert(final(self).chain_prev(i) == old(self).prev_hash@);
                }
            }
        }
        Ok(out)
    }

    /// Writes the final checkpoint on graceful shutdown: present
    /// exactly when a signing key is configured, at least one event
    /// was written, and (in encrypted mode) the line fits the
    /// cipher's message limit; bound to the last written event.
    pub fn finalize(&self, now_ms: u64) -> (r: Option<Vec<u8>>)
        requires
            self.wf(),
        ensures
            (r is Some) == (self.signing_seed is Some && self.last_event_id > 0 && (
            self.encrypted() ==> ser_value(
                record_jv(
                    checkpoint_record_of(
                        self.seed_view()->0,
                        self.run_id@,
                        now_ms,
                        self.last_event_id,
                        self.prev_hash@,
                    ),
                ),
            ).len() < crate::crypto::CHACHA_MAX_MSG)),
            r matches Some(line) ==> carries_line(
                line@,
                self.encrypted(),
                self.dek_view(),
                self.run_id@,
                k_checkpoint(),
                ser_value(
                    record_jv(
                        checkpoint_record_of(
                            self.seed_view()->0,
                            self.run_id@,
                            now_ms,
                            self.last_event_id,
                            self.prev_hash@,
                        ),
                    ),
                ),
            ),
    {
        let seed = match &self.signing_seed {
            Some(s) => s,
            None => {
                return None;
            },
        };
        if self.last_event_id == 0 {
            return None;
        }
        let cp = make_checkpoint_record(seed, &self.run_id, now_ms, self.last_event_id, &self.prev_hash);
        let cp_line = record_to_line(&cp);
        match &self.mode {
            SinkMode::Plain => Some(cp_line),
            SinkMode::Encrypted { dek } => {
                if !((cp_line.len() as u64) < crate::crypto::CHACHA_MAX_MSG) {
                    return None;
                }
                let nonce = random_bytes(12);
                let enc = encrypt_record_line(dek, &self.run_id, &kb_checkpoint(), &cp_line, &nonce);
                Some(encrypted_to_line(&enc))
            },
        }
    }

    /// Wipes the data key; the run is over.
    pub fn close(&mut self)
        ensures
            final(self).dek_view().len() == 0,
    {
        match &mut self.mode {
            SinkMode::Plain => {},
            SinkMode::Encrypted { dek } => {
                wipe_bytes(dek);
            },
        }
    }
}

/// Chain continuity of a written log: the previous-hash field of each
/// event record written after the first equals the entry-hash field
/// of the record before it.
pub open spec fn rec_prev_b64(r: AuditRecordV) -> Seq<u8> {
    match r {
        AuditRecordV::Event { integrity, .. } => integrity.prev_hash_b64,
        _ => Seq::empty(),
    }
}

pub open spec fn rec_entry_b64(r: AuditRecordV) -> Seq<u8> {
    match r {
        AuditRecordV::Event { integrity, .. } => integrity.entry_hash_b64,
        _ => Seq::empty(),
    }
}

/// For every pair of consecutive events a sink has written,
/// `prev_hash` of the later equals `entry_hash` of the earlier; the
/// first record's `prev_hash` encodes 32 zero bytes.
pub proof fn lemma_chain_continuity(s: AuditSink, i: int)
    requires
        s.wf(),
        0 <= i,
        i + 1 < s.events@.len(),
    ensures
        rec_prev_b64(s.event_record(i + 1)) == rec_entry_b64(s.event_record(i)),
        rec_prev_b64(s.event_record(0)) == b64_of(zeros32()),
{
}

} // verus!
