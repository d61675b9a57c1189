//! The offline verifier: replays a log's records, rebuilding the
//! hash chain, checking id contiguity, run binding, key identity and
//! checkpoint signatures, and reports the first violation with its
//! record position.
use vstd::prelude::*;

use crate::codec::{b64_decode, b64_of};
use crate::crypto::{ed25519_verify, ed25519_verify_of};
use crate::envelope::{
    EncryptedRecordV, KeyEnvelopeV, enc_fixed_ok, enc_jv, enc_opens_to, enc_rec_wf, env_fixed_ok,
    env_jv, env_rec_wf, env_unwraps_to, decrypt_record, parse_encrypted, parse_envelope,
    unwrap_envelope,
};
use crate::errors::AuditError;
use crate::events::McpLogV;
use crate::jtext::{is_ws, ser_value};
use crate::order::{bytes_eq, copy_bytes};
use crate::records::{
    AuditRecord, AuditRecordV, IntegrityFieldsV, canon_log, canon_rec, entry_hash_of,
    compute_entry_hash, key_id_from_pubkey, parse_record, preimage_of, checkpoint_preimage,
    record_jv, record_wf, signable_jv, signing_key_id_of,
};
use crate::sink::zeros32;

verus! {

/// Replay state: the chain tip, the last seen event id, the run id
/// seen so far, and how many records of each kind verified.
#[derive(Debug)]
pub struct VerifyState {
    pub run_id: Option<Vec<u8>>,
    pub prev_hash: Vec<u8>,
    pub last_event_id: u64,
    pub events: usize,
    pub checkpoints: usize,
}

pub struct VerifyStateV {
    pub run_id: Option<Seq<u8>>,
    pub prev_hash: Seq<u8>,
    pub last_event_id: u64,
    pub events: int,
    pub checkpoints: int,
}

impl View for VerifyState {
    type V = VerifyStateV;

    open spec fn view(&self) -> VerifyStateV {
        VerifyStateV {
            run_id: match self.run_id {
                Some(r) => Some(r@),
                None => None,
            },
            prev_hash: self.prev_hash@,
            last_event_id: self.last_event_id,
            events: self.events as int,
            checkpoints: self.checkpoints as int,
        }
    }
}

pub open spec fn init_state() -> VerifyStateV {
    VerifyStateV {
        run_id: None,
        prev_hash: zeros32(),
        last_event_id: 0,
        events: 0,
        checkpoints: 0,
    }
}

/// Whether `field` is the canonical encoding of some 32-byte value.
pub open spec fn is_b64_32(field: Seq<u8>) -> bool {
    exists|b: Seq<u8>| b.len() == 32 && field == #[trigger] b64_of(b)
}

/// Replay of one event record.  The rules, in order: the run id must
/// match the one seen; `prev_hash_b64` must encode the running tip;
/// event ids must be contiguous; `entry_hash_b64` must encode the
/// recomputed entry hash; the integrity metadata must name this
/// format's hash algorithm and version.
pub open spec fn event_step(s: VerifyStateV, log: McpLogV, integ: IntegrityFieldsV) -> Result<
    VerifyStateV,
    AuditError,
> {
    if s.run_id matches Some(r) && log.run_id != r {
        Err(AuditError::RunIdMismatch)
    } else if !is_b64_32(integ.prev_hash_b64) {
        Err(AuditError::SerializationError)
    } else if integ.prev_hash_b64 != b64_of(s.prev_hash) {
        Err(AuditError::ChainMismatch)
    } else if (if s.events == 0 {
        log.event_id != 1
    } else {
        log.event_id as int != s.last_event_id as int + 1
    }) {
        Err(AuditError::IdGap)
    } else if !is_b64_32(integ.entry_hash_b64) {
        Err(AuditError::SerializationError)
    } else if integ.entry_hash_b64 != b64_of(entry_hash_of(s.prev_hash, log)) {
        Err(AuditError::ChainMismatch)
    } else if integ.hash_alg != crate::names::k_alg_blake3() || integ.version != 1 {
        Err(AuditError::SerializationError)
    } else {
        Ok(
            VerifyStateV {
                run_id: Some(log.run_id),
                prev_hash: entry_hash_of(s.prev_hash, log),
                last_event_id: log.event_id,
                events: s.events + 1,
                checkpoints: s.checkpoints,
            },
        )
    }
}

/// Replay of one checkpoint record.  The rules, in order: run
/// binding; the recorded tip must encode the running tip; the
/// recorded last event id must match; the key id must be the one of
/// the supplied public key (checked before any signature work); the
/// signature must decode to 64 bytes and verify strictly over the
/// preimage; the metadata must name this format's algorithms and
/// version (the timestamp is deliberately unchecked, as the signature
/// deliberately does not cover it).
pub open spec fn checkpoint_step(
    s: VerifyStateV,
    run_id: Seq<u8>,
    last_event_id: u64,
    last_entry_hash_b64: Seq<u8>,
    signature_b64: Seq<u8>,
    key_id: Seq<u8>,
    hash_alg: Seq<u8>,
    sig_alg: Seq<u8>,
    version: u64,
    pubkey: Seq<u8>,
) -> Result<VerifyStateV, AuditError> {
    if s.run_id matches Some(r) && run_id != r {
        Err(AuditError::RunIdMismatch)
    } else if !is_b64_32(last_entry_hash_b64) {
        Err(AuditError::SerializationError)
    } else if last_entry_hash_b64 != b64_of(s.prev_hash) {
        Err(AuditError::ChainMismatch)
    } else if last_event_id != s.last_event_id {
        Err(AuditError::ChainMismatch)
    } else if key_id != signing_key_id_of(pubkey) {
        Err(AuditError::KeyIdMismatch)
    } else if !(exists|sg: Seq<u8>| sg.len() == 64 && signature_b64 == #[trigger] b64_of(sg)) {
        Err(AuditError::SerializationError)
    } else if !(exists|sg: Seq<u8>|
        sg.len() == 64 && signature_b64 == #[trigger] b64_of(sg) && ed25519_verify_of(
            pubkey,
            preimage_of(run_id, last_event_id, s.prev_hash),
            sg,
        )) {
        Err(AuditError::CryptoFailure)
    } else if hash_alg != crate::names::k_alg_blake3() || sig_alg != crate::names::k_alg_ed25519()
        || version != 1 {
        Err(AuditError::SerializationError)
    } else {
        Ok(
            VerifyStateV {
                run_id: Some(run_id),
                prev_hash: s.prev_hash,
                last_event_id: s.last_event_id,
                events: s.events,
                checkpoints: s.checkpoints + 1,
            },
        )
    }
}

/// Replay of one record.
pub open spec fn record_step(s: VerifyStateV, rec: AuditRecordV, pubkey: Seq<u8>) -> Result<
    VerifyStateV,
    AuditError,
> {
    match rec {
        AuditRecordV::Event { log, integrity } => event_step(s, log, integrity),
        AuditRecordV::Checkpoint {
            run_id,
            created_ts_ms: _,
            last_event_id,
            last_entry_hash_b64,
            signature_b64,
            key_id,
            hash_alg,
            sig_alg,
            version,
        } => checkpoint_step(
            s,
            run_id,
            last_event_id,
            last_entry_hash_b64,
            signature_b64,
            key_id,
            hash_alg,
            sig_alg,
            version,
            pubkey,
        ),
    }
}

/// Replay of a record sequence from position `i`, returning the final
/// state or the position and kind of the first violation.
pub open spec fn replay_from(s: VerifyStateV, recs: Seq<AuditRecordV>, i: int, pubkey: Seq<u8>) -> Result<
    VerifyStateV,
    (int, AuditError),
>
    decreases recs.len() - i,
{
    if i < 0 || i >= recs.len() {
        Ok(s)
    } else {
        match record_step(s, recs[i], pubkey) {
            Ok(s2) => replay_from(s2, recs, i + 1, pubkey),
            Err(e) => Err((i, e)),
        }
    }
}

/// The verdict over a full record sequence: replay everything, and
/// require at least one event and at least one checkpoint.
pub open spec fn verify_records_spec(recs: Seq<AuditRecordV>, pubkey: Seq<u8>) -> Result<
    VerifyStateV,
    (int, AuditError),
> {
    match replay_from(init_state(), recs, 0, pubkey) {
        Ok(s) => {
            if s.events == 0 {
                Err((recs.len() as int, AuditError::EmptyLog))
            } else if s.checkpoints == 0 {
                Err((recs.len() as int, AuditError::MissingCheckpoint))
            } else {
                Ok(s)
            }
        },
        Err(e) => Err(e),
    }
}

/// Decodes a field that must hold the canonical base64 of 32 bytes.
fn decode_b64_32(s: &Vec<u8>) -> (r: Option<Vec<u8>>)
    ensures
        match r {
            Some(v) => v@.len() == 32 && s@ == b64_of(v@) && forall|b: Seq<u8>|
                s@ == #[trigger] b64_of(b) ==> b == v@,
            None => !is_b64_32(s@),
        },
{
    match b64_decode(s) {
        Some(v) => {
            if v.len() == 32 {
                Some(v)
            } else {
                None
            }
        },
        None => None,
    }
}

/// Replays one event record against the state.
fn apply_event(s: &mut VerifyState, log: &crate::events::McpLog, integ: &crate::records::IntegrityFields) -> (r:
    Result<(), AuditError>)
    requires
        old(s)@.events < usize::MAX,
    ensures
        match r {
            Ok(()) => event_step(old(s)@, log@, integ@) == Ok::<VerifyStateV, AuditError>(
                final(s)@,
            ),
            Err(e) => event_step(old(s)@, log@, integ@) == Err::<VerifyStateV, AuditError>(e)
                && final(s)@ == old(s)@,
        },
{
    match &s.run_id {
        Some(r) => {
            if !bytes_eq(&log.run_id, r) {
                return Err(AuditError::RunIdMismatch);
            }
        },
        None => {},
    }
    let prev_b = match decode_b64_32(&integ.prev_hash_b64) {
        Some(v) => v,
        None => {
            return Err(AuditError::SerializationError);
        },
    };
    if !bytes_eq(&prev_b, &s.prev_hash) {
        proof {
            assert(integ@.prev_hash_b64 != b64_of(s@.prev_hash));
        }
        return Err(AuditError::ChainMismatch);
    }
    proof {
        assert(integ@.prev_hash_b64 == b64_of(s@.prev_hash));
    }
    if s.events == 0 {
        if log.event_id != 1 {
            return Err(AuditError::IdGap);
        }
    } else {
        if !(log.event_id >= 1 && log.event_id - 1 == s.last_event_id) {
            return Err(AuditError::IdGap);
        }
    }
    let computed = compute_entry_hash(&s.prev_hash, log);
    let entry_b = match decode_b64_32(&integ.entry_hash_b64) {
        Some(v) => v,
        None => {
            return Err(AuditError::SerializationError);
        },
    };
    if !bytes_eq(&entry_b, &computed) {
        proof {
            assert(integ@.entry_hash_b64 != b64_of(entry_hash_of(s@.prev_hash, log@)));
        }
        return Err(AuditError::ChainMismatch);
    }
    proof {
        assert(integ@.entry_hash_b64 == b64_of(entry_hash_of(s@.prev_hash, log@)));
    }
    if !bytes_eq(&integ.hash_alg, &crate::names::kb_alg_blake3()) || integ.version != 1 {
        return Err(AuditError::SerializationError);
    }
    s.run_id = Some(copy_bytes(&log.run_id));
    s.prev_hash = computed;
    s.last_event_id = log.event_id;
    s.events = s.events + 1;
    Ok(())
}

/// Replays one checkpoint record against the state.  The key id is
/// compared before any signature material is touched, so a log
/// checkpointed under a different key fails with `KeyIdMismatch`
/// before signature verification.
fn apply_checkpoint(
    s: &mut VerifyState,
    run_id: &Vec<u8>,
    last_event_id: u64,
    last_entry_hash_b64: &Vec<u8>,
    signature_b64: &Vec<u8>,
    key_id: &Vec<u8>,
    hash_alg: &Vec<u8>,
    sig_alg: &Vec<u8>,
    version: u64,
    pubkey: &Vec<u8>,
) -> (r: Result<(), AuditError>)
    requires
        old(s)@.checkpoints < usize::MAX,
        pubkey@.len() == 32,
    ensures
        match r {
            Ok(()) => checkpoint_step(
                old(s)@,
                run_id@,
                last_event_id,
                last_entry_hash_b64@,
                signature_b64@,
                key_id@,
                hash_alg@,
                sig_alg@,
                version,
                pubkey@,
            ) == Ok::<VerifyStateV, AuditError>(final(s)@),
            Err(e) => checkpoint_step(
                old(s)@,
                run_id@,
                last_event_id,
                last_entry_hash_b64@,
                signature_b64@,
                key_id@,
                hash_alg@,
                sig_alg@,
                version,
                pubkey@,
            ) == Err::<VerifyStateV, AuditError>(e) && final(s)@ == old(s)@,
        },
{
    match &s.run_id {
        Some(r) => {
            if !bytes_eq(run_id, r) {
                return Err(AuditError::RunIdMismatch);
            }
        },
        None => {},
    }
    let cp_hash = match decode_b64_32(last_entry_hash_b64) {
        Some(v) => v,
        None => {
            return Err(AuditError::SerializationError);
        },
    };
    if !bytes_eq(&cp_hash, &s.prev_hash) {
        proof {
            assert(last_entry_hash_b64@ != b64_of(s@.prev_hash));
        }
        return Err(AuditError::ChainMismatch);
    }
    proof {
        assert(last_entry_hash_b64@ == b64_of(s@.prev_hash));
    }
    if last_event_id != s.last_event_id {
        return Err(AuditError::ChainMismatch);
    }
    let expected = key_id_from_pubkey(pubkey);
    if !bytes_eq(key_id, &expected) {
        return Err(AuditError::KeyIdMismatch);
    }
    let sig = match b64_decode(signature_b64) {
        Some(v) => v,
        None => {
            return Err(AuditError::SerializationError);
        },
    };
    if sig.len() != 64 {
        return Err(AuditError::SerializationError);
    }
    let pre = checkpoint_preimage(run_id, last_event_id, &s.prev_hash);
    if !ed25519_verify(pubkey, &pre, &sig) {
        proof {
            assert forall|sg: Seq<u8>|
                sg.len() == 64 && signature_b64@ == #[trigger] b64_of(sg) implies !ed25519_verify_of(
                pubkey@,
                preimage_of(run_id@, last_event_id, s@.prev_hash),
                sg,
            ) by {
                assert(sg == sig@);
            }
        }
        return Err(AuditError::CryptoFailure);
    }
    if !bytes_eq(hash_alg, &crate::names::kb_alg_blake3()) || !bytes_eq(
        sig_alg,
        &crate::names::kb_alg_ed25519(),
    ) || version != 1 {
        return Err(AuditError::SerializationError);
    }
    s.run_id = Some(copy_bytes(run_id));
    s.checkpoints = s.checkpoints + 1;
    Ok(())
}

/// Replays one record.
fn apply_record(s: &mut VerifyState, rec: &AuditRecord, pubkey: &Vec<u8>) -> (r: Result<
    (),
    AuditError,
>)
    requires
        old(s)@.events < usize::MAX,
        old(s)@.checkpoints < usize::MAX,
        pubkey@.len() == 32,
    ensures
        match r {
            Ok(()) => record_step(old(s)@, rec@, pubkey@) == Ok::<VerifyStateV, AuditError>(
                final(s)@,
            ),
            Err(e) => record_step(old(s)@, rec@, pubkey@) == Err::<VerifyStateV, AuditError>(e)
                && final(s)@ == old(s)@,
        },
{
    match rec {
        AuditRecord::Event { log, integrity } => apply_event(s, log, integrity),
        AuditRecord::Checkpoint {
            run_id,
            created_ts_ms: _,
            last_event_id,
            last_entry_hash_b64,
            signature_b64,
            key_id,
            hash_alg,
            sig_alg,
            version,
        } => apply_checkpoint(
            s,
            run_id,
            *last_event_id,
            last_entry_hash_b64,
            signature_b64,
            key_id,
            hash_alg,
            sig_alg,
            *version,
            pubkey,
        ),
    }
}

/// The record views of a record vector.
pub open spec fn recs_view(recs: Seq<AuditRecord>) -> Seq<AuditRecordV> {
    Seq::new(recs.len(), |i: int|
        if 0 <= i < recs.len() {
            recs[i]@
        } else {
            arbitrary()
        })
}

/// Replays a whole record sequence and applies the end-of-log rules:
/// the verdict is exactly `verify_records_spec`.
#[verifier::loop_isolation(false)]
pub fn verify_records(recs: &Vec<AuditRecord>, pubkey: &Vec<u8>) -> (r: Result<
    VerifyState,
    (usize, AuditError),
>)
    requires
        pubkey@.len() == 32,
    ensures
        match r {
            Ok(s) => verify_records_spec(recs_view(recs@), pubkey@) == Ok::<
                VerifyStateV,
                (int, AuditError),
            >(s@),
            Err((i, e)) => verify_records_spec(recs_view(recs@), pubkey@) == Err::<
                VerifyStateV,
                (int, AuditError),
            >((i as int, e)),
        },
{
    let ghost rv = recs_view(recs@);
    let mut s = VerifyState {
        run_id: None,
        prev_hash: crate::sink::zeros32_vec(),
        last_event_id: 0,
        events: 0,
        checkpoints: 0,
    };
    proof {
        assert(s@ == init_state());
    }
    let mut i: usize = 0;
    while i < recs.len()
        invariant
            i <= recs@.len(),
            s@.events + s@.checkpoints <= i,
            replay_from(init_state(), rv, 0, pubkey@) == replay_from(s@, rv, i as int, pubkey@),
        decreases recs@.len() - i,
    {
        let rec = &recs[i];
        proof {
            assert(rv[i as int] == rec@);
        }
        match apply_record(&mut s, rec, pubkey) {
            Ok(()) => {},
            Err(e) => {
                proof {
                    assert(record_step(s@, rv[i as int], pubkey@) == Err::<
                        VerifyStateV,
                        AuditError,
                    >(e));
                }
                return Err((i, e));
            },
        }
        i = i + 1;
    }
    proof {
        assert(replay_from(s@, rv, rv.len() as int, pubkey@) == Ok::<
            VerifyStateV,
            (int, AuditError),
        >(s@));
    }
    if s.events == 0 {
        return Err((recs.len(), AuditError::EmptyLog));
    }
    if s.checkpoints == 0 {
        return Err((recs.len(), AuditError::MissingCheckpoint));
    }
    Ok(s)
}


/// A line of nothing but whitespace, skipped during replay.
pub open spec fn blank_line(l: Seq<u8>) -> bool {
    forall|i: int| 0 <= i < l.len() ==> is_ws(#[trigger] l[i])
}

fn is_blank(l: &Vec<u8>) -> (r: bool)
    ensures
        r == blank_line(l@),
{
    let mut i: usize = 0;
    while i < l.len()
        invariant
            i <= l@.len(),
            forall|j: int| 0 <= j < i ==> is_ws(#[trigger] l@[j]),
        decreases l@.len() - i,
    {
        let b = l[i];
        if !(b == 0x20 || b == 0x09 || b == 0x0a || b == 0x0d) {
            return false;
        }
        i = i + 1;
    }
    true
}

/// The views of a vector of lines.
pub open spec fn lines_view(lines: Seq<Vec<u8>>) -> Seq<Seq<u8>> {
    Seq::new(lines.len(), |i: int|
        if 0 <= i < lines.len() {
            lines[i]@
        } else {
            Seq::empty()
        })
}

/// The non-blank lines are, in order, the canonical serializations of
/// the given records.
pub open spec fn lines_represent(lines: Seq<Seq<u8>>, recs: Seq<AuditRecordV>) -> bool
    decreases lines.len(),
{
    if lines.len() == 0 {
        recs.len() == 0
    } else if blank_line(lines[0]) {
        lines_represent(lines.drop_first(), recs)
    } else {
        recs.len() > 0 && lines[0] == ser_value(record_jv(recs[0])) && lines_represent(
            lines.drop_first(),
            recs.drop_first(),
        )
    }
}

proof fn lemma_represent_snoc_blank(lines: Seq<Seq<u8>>, recs: Seq<AuditRecordV>, l: Seq<u8>)
    requires
        lines_represent(lines, recs),
        blank_line(l),
    ensures
        lines_represent(lines.push(l), recs),
    decreases lines.len(),
{
    if lines.len() == 0 {
        assert(lines.push(l)[0] == l);
        assert(lines.push(l).drop_first() =~= lines);
        assert(lines_represent(lines.push(l), recs));
    } else {
        assert(lines.push(l)[0] == lines[0]);
        assert(lines.push(l).drop_first() =~= lines.drop_first().push(l));
        if blank_line(lines[0]) {
            lemma_represent_snoc_blank(lines.drop_first(), recs, l);
        } else {
            lemma_represent_snoc_blank(lines.drop_first(), recs.drop_first(), l);
        }
        assert(lines_represent(lines.push(l), recs));
    }
}

proof fn lemma_represent_snoc_rec(
    lines: Seq<Seq<u8>>,
    recs: Seq<AuditRecordV>,
    l: Seq<u8>,
    rec: AuditRecordV,
)
    requires
        lines_represent(lines, recs),
        !blank_line(l),
        l == ser_value(record_jv(rec)),
    ensures
        lines_represent(lines.push(l), recs.push(rec)),
    decreases lines.len(),
{
    if lines.len() == 0 {
        assert(lines.push(l)[0] == l);
        assert(recs.push(rec)[0] == rec);
        assert(lines.push(l).drop_first() =~= lines);
        assert(recs.push(rec).drop_first() =~= recs);
        assert(lines_represent(lines.push(l), recs.push(rec)));
    } else {
        assert(lines.push(l)[0] == lines[0]);
        assert(lines.push(l).drop_first() =~= lines.drop_first().push(l));
        if blank_line(lines[0]) {
            lemma_represent_snoc_rec(lines.drop_first(), recs, l, rec);
        } else {
            assert(recs.push(rec)[0] == recs[0]);
            assert(recs.push(rec).drop_first() =~= recs.drop_first().push(rec));
            lemma_represent_snoc_rec(lines.drop_first(), recs.drop_first(), l, rec);
        }
        assert(lines_represent(lines.push(l), recs.push(rec)));
    }
}

/// A verification failure: the number of the first offending line
/// (1-based; one past the last line for end-of-log rules) and the
/// kind of violation.
#[derive(Clone, Copy, PartialEq, Eq, Structural, Debug)]
pub struct VerifyFailure {
    pub line: usize,
    pub kind: AuditError,
}

/// Verifies a plaintext log given as its lines.  On success the
/// non-blank lines are, in order, the canonical serializations of a
/// record sequence that replays cleanly under the given public key:
/// the chain links, the ids are `1, 2, 3, …`, every checkpoint is
/// signed by this key, and at least one event and one checkpoint
/// exist.  On failure, no well-formed record sequence the lines
/// could stand for replays cleanly: success is owed on every log
/// made of well-formed records.
#[verifier::loop_isolation(false)]
pub fn verify_audit_lines(lines: &Vec<Vec<u8>>, pubkey: &Vec<u8>) -> (r: Result<
    VerifyState,
    VerifyFailure,
>)
    requires
        pubkey@.len() == 32,
    ensures
        r matches Ok(s) ==> exists|recs: Seq<AuditRecordV>|
            lines_represent(lines_view(lines@), recs) && #[trigger] verify_records_spec(
                recs,
                pubkey@,
            ) == Ok::<VerifyStateV, (int, AuditError)>(s@),
        r is Err ==> (forall|recs: Seq<AuditRecordV>|
            all_rec_wf(recs) && #[trigger] lines_represent(lines_view(lines@), recs)
                ==> verify_records_spec(recs, pubkey@) is Err),
{
    let mut recs: Vec<AuditRecord> = Vec::new();
    let ghost mut done: Seq<Seq<u8>> = Seq::empty();
    let mut i: usize = 0;
    proof {
        assert(lines_represent(done, recs_view(recs@)));
        assert forall|R: Seq<AuditRecordV>|
            all_rec_wf(R) && #[trigger] lines_represent(done, R) implies canon_recs(R)
            == recs_view(recs@) by {
            assert(R.len() == 0);
            assert(canon_recs(R) =~= recs_view(recs@));
        }
    }
    while i < lines.len()
        invariant
            i <= lines@.len(),
            done == lines_view(lines@).take(i as int),
            lines_represent(done, recs_view(recs@)),
            forall|R: Seq<AuditRecordV>|
                all_rec_wf(R) && #[trigger] lines_represent(done, R) ==> canon_recs(R)
                    == recs_view(recs@),
        decreases lines@.len() - i,
    {
        let line = &lines[i];
        let ghost prev_recs = recs_view(recs@);
        if is_blank(line) {
            proof {
                lemma_represent_snoc_blank(done, prev_recs, line@);
                assert forall|R: Seq<AuditRecordV>|
                    all_rec_wf(R) && #[trigger] lines_represent(done.push(line@), R) implies
                    canon_recs(R) == prev_recs by {
                    lemma_represent_snoc_blank_inv(done, R, line@);
                }
                done = done.push(line@);
                assert(done =~= lines_view(lines@).take(i + 1));
            }
        } else {
            let rec = match parse_record(line) {
                Some(r) => r,
                None => {
                    proof {
                        assert forall|R: Seq<AuditRecordV>| !(all_rec_wf(R)
                            && #[trigger] lines_represent(lines_view(lines@), R)) by {
                            if all_rec_wf(R) && lines_represent(lines_view(lines@), R) {
                                lemma_represent_split_at(lines_view(lines@), R, i as int);
                                let k = choose|k: int|
                                    0 <= k <= R.len() && lines_represent(
                                        lines_view(lines@).take(i as int),
                                        #[trigger] R.take(k),
                                    ) && lines_represent(
                                        lines_view(lines@).skip(i as int),
                                        R.skip(k),
                                    );
                                let suffix = lines_view(lines@).skip(i as int);
                                assert(suffix[0] == line@);
                                assert(R.skip(k).len() > 0);
                                assert(line@ == ser_value(record_jv(R.skip(k)[0])));
                                assert(R.skip(k)[0] == R[k]);
                                assert(record_wf(R[k]));
                            }
                        }
                    }
                    return Err(
                        VerifyFailure { line: i + 1, kind: AuditError::SerializationError },
                    );
                },
            };
            recs.push(rec);
            proof {
                lemma_represent_snoc_rec(done, prev_recs, line@, rec@);
                assert forall|R: Seq<AuditRecordV>|
                    all_rec_wf(R) && #[trigger] lines_represent(done.push(line@), R) implies
                    canon_recs(R) == recs_view(recs@) by {
                    lemma_represent_snoc_rec_inv(done, R, line@);
                    assert(record_wf(R.last()));
                    assert forall|j: int| 0 <= j < R.drop_last().len() implies record_wf(
                        #[trigger] R.drop_last()[j],
                    ) by {
                        assert(R.drop_last()[j] == R[j]);
                    }
                    assert(canon_recs(R.drop_last()) == prev_recs);
                    assert(rec@ == canon_rec(R.last()));
                    assert forall|j: int| 0 <= j < R.len() implies #[trigger] canon_recs(R)[j]
                        == recs_view(recs@)[j] by {
                        if j < R.len() - 1 {
                            assert(canon_recs(R.drop_last())[j] == canon_rec(R.drop_last()[j]));
                            assert(R.drop_last()[j] == R[j]);
                            assert(recs_view(recs@)[j] == prev_recs[j]);
                        } else {
                            assert(canon_recs(R)[j] == canon_rec(R.last()));
                            assert(recs_view(recs@)[j] == rec@);
                        }
                    }
                    assert(canon_recs(R) =~= recs_view(recs@));
                }
                done = done.push(line@);
                assert(done =~= lines_view(lines@).take(i + 1));
                assert(recs_view(recs@) =~= prev_recs.push(rec@));
            }
        }
        i = i + 1;
    }
    proof {
        assert(done =~= lines_view(lines@));
    }
    match verify_records(&recs, pubkey) {
        Ok(s) => Ok(s),
        Err((pos, kind)) => {
            proof {
                assert forall|R: Seq<AuditRecordV>|
                    all_rec_wf(R) && #[trigger] lines_represent(lines_view(lines@), R) implies
                    verify_records_spec(R, pubkey@) is Err by {
                    assert(canon_recs(R) == recs_view(recs@));
                    lemma_verify_records_canon(R, pubkey@);
                }
            }
            // report a 1-based position, one past the end for the
            // end-of-log rules
            let ln = if pos < lines.len() {
                pos + 1
            } else if lines.len() < usize::MAX {
                lines.len() + 1
            } else {
                usize::MAX
            };
            Err(VerifyFailure { line: ln, kind })
        },
    }
}

/// How a sequence of encrypted-log lines decrypts: every non-blank
/// line is the canonical serialization of a sealed record of this run
/// that opens, under the data key, to the corresponding output line.
pub open spec fn enc_lines_open(
    lines: Seq<Seq<u8>>,
    dk: Seq<u8>,
    run_id: Seq<u8>,
    out: Seq<Seq<u8>>,
) -> bool
    decreases lines.len(),
{
    if lines.len() == 0 {
        out.len() == 0
    } else if blank_line(lines[0]) {
        enc_lines_open(lines.drop_first(), dk, run_id, out)
    } else {
        &&& out.len() > 0
        &&& exists|e: EncryptedRecordV|
            {
                &&& enc_rec_wf(e)
                &&& enc_fixed_ok(e)
                &&& lines[0] == ser_value(#[trigger] enc_jv(e))
                &&& e.run_id == run_id
                &&& enc_opens_to(e, dk, out[0])
            }
        &&& enc_lines_open(lines.drop_first(), dk, run_id, out.drop_first())
    }
}

/// An encrypted log, as decrypted with a recipient secret: the first
/// non-blank line is a key envelope that unwraps under the secret to
/// a data key, and the remaining non-blank lines open under that key
/// to the output lines.
pub open spec fn log_decrypts_to(lines: Seq<Seq<u8>>, sk: Seq<u8>, out: Seq<Seq<u8>>) -> bool
    decreases lines.len(),
{
    if lines.len() == 0 {
        false
    } else if blank_line(lines[0]) {
        log_decrypts_to(lines.drop_first(), sk, out)
    } else {
        exists|env: KeyEnvelopeV, dk: Seq<u8>|
            {
                &&& env_rec_wf(env)
                &&& env_fixed_ok(env)
                &&& lines[0] == ser_value(#[trigger] env_jv(env))
                &&& #[trigger] env_unwraps_to(env, sk, dk)
                &&& enc_lines_open(lines.drop_first(), dk, env.run_id, out)
            }
    }
}

/// Whether the log's first non-blank line is the written form of a
/// key envelope (so the log is encrypted).
#[verifier::loop_isolation(false)]
pub fn is_encrypted_log(lines: &Vec<Vec<u8>>) -> (r: bool)
    ensures
        r == first_nonblank_is_envelope(lines_view(lines@)),
{
    let ghost lv = lines_view(lines@);
    let mut i: usize = 0;
    proof {
        assert(lv.skip(0) =~= lv);
    }
    while i < lines.len()
        invariant
            i <= lines@.len(),
            first_nonblank_is_envelope(lv) == first_nonblank_is_envelope(lv.skip(i as int)),
        decreases lines@.len() - i,
    {
        if !is_blank(&lines[i]) {
            let r = match parse_envelope(&lines[i]) {
                Some(e) => {
                    proof {
                        assert(lv.skip(i as int)[0] == lines@[i as int]@);
                        assert(env_rec_wf(e@) && env_fixed_ok(e@) && lv.skip(i as int)[0]
                            == ser_value(env_jv(e@)));
                        assert(first_nonblank_is_envelope(lv.skip(i as int)));
                    }
                    true
                },
                None => {
                    proof {
                        assert(lv.skip(i as int)[0] == lines@[i as int]@);
                        if first_nonblank_is_envelope(lv.skip(i as int)) {
                            let e = choose|e: KeyEnvelopeV|
                                env_rec_wf(e) && env_fixed_ok(e) && lv.skip(i as int)[0]
                                    == ser_value(#[trigger] env_jv(e));
                            assert(false);
                        }
                    }
                    false
                },
            };
            return r;
        }
        proof {
            assert(lv.skip(i as int)[0] == lines@[i as int]@);
            assert(lv.skip(i as int).drop_first() =~= lv.skip(i + 1));
        }
        i = i + 1;
    }
    proof {
        assert(lv.skip(i as int) =~= Seq::<Seq<u8>>::empty());
    }
    false
}

proof fn lemma_enc_open_snoc_blank(
    lines: Seq<Seq<u8>>,
    dk: Seq<u8>,
    run_id: Seq<u8>,
    out: Seq<Seq<u8>>,
    l: Seq<u8>,
)
    requires
        enc_lines_open(lines, dk, run_id, out),
        blank_line(l),
    ensures
        enc_lines_open(lines.push(l), dk, run_id, out),
    decreases lines.len(),
{
    if lines.len() == 0 {
        assert(lines.push(l)[0] == l);
        assert(lines.push(l).drop_first() =~= lines);
        assert(enc_lines_open(lines.push(l), dk, run_id, out));
    } else {
        assert(lines.push(l)[0] == lines[0]);
        assert(lines.push(l).drop_first() =~= lines.drop_first().push(l));
        if blank_line(lines[0]) {
            lemma_enc_open_snoc_blank(lines.drop_first(), dk, run_id, out, l);
        } else {
            lemma_enc_open_snoc_blank(lines.drop_first(), dk, run_id, out.drop_first(), l);
        }
        assert(enc_lines_open(lines.push(l), dk, run_id, out));
    }
}

proof fn lemma_enc_open_snoc_rec(
    lines: Seq<Seq<u8>>,
    dk: Seq<u8>,
    run_id: Seq<u8>,
    out: Seq<Seq<u8>>,
    l: Seq<u8>,
    e: EncryptedRecordV,
    p: Seq<u8>,
)
    requires
        enc_lines_open(lines, dk, run_id, out),
        !blank_line(l),
        enc_rec_wf(e),
        enc_fixed_ok(e),
        l == ser_value(enc_jv(e)),
        e.run_id == run_id,
        enc_opens_to(e, dk, p),
    ensures
        enc_lines_open(lines.push(l), dk, run_id, out.push(p)),
    decreases lines.len(),
{
    if lines.len() == 0 {
        assert(lines.push(l)[0] == l);
        assert(out.push(p)[0] == p);
        assert(lines.push(l).drop_first() =~= lines);
        assert(out.push(p).drop_first() =~= out);
        assert(enc_lines_open(lines.push(l), dk, run_id, out.push(p)));
    } else {
        assert(lines.push(l)[0] == lines[0]);
        assert(lines.push(l).drop_first() =~= lines.drop_first().push(l));
        if blank_line(lines[0]) {
            lemma_enc_open_snoc_rec(lines.drop_first(), dk, run_id, out, l, e, p);
        } else {
            assert(out.push(p)[0] == out[0]);
            assert(out.push(p).drop_first() =~= out.drop_first().push(p));
            lemma_enc_open_snoc_rec(lines.drop_first(), dk, run_id, out.drop_first(), l, e, p);
        }
        assert(enc_lines_open(lines.push(l), dk, run_id, out.push(p)));
    }
}

proof fn lemma_decrypts_prepend_blanks(
    lines: Seq<Seq<u8>>,
    sk: Seq<u8>,
    out: Seq<Seq<u8>>,
    i: int,
)
    requires
        0 <= i < lines.len(),
        forall|j: int| 0 <= j < i ==> blank_line(#[trigger] lines[j]),
        !blank_line(lines[i]),
        exists|env: KeyEnvelopeV, dk: Seq<u8>|
            {
                &&& env_rec_wf(env)
                &&& env_fixed_ok(env)
                &&& lines[i] == ser_value(#[trigger] env_jv(env))
                &&& #[trigger] env_unwraps_to(env, sk, dk)
                &&& enc_lines_open(lines.skip(i + 1), dk, env.run_id, out)
            },
    ensures
        log_decrypts_to(lines.skip(0), sk, out),
    decreases i,
{
    if i == 0 {
        assert(lines.skip(0) =~= lines);
        let (env, dk) = choose|env: KeyEnvelopeV, dk: Seq<u8>|
            {
                &&& env_rec_wf(env)
                &&& env_fixed_ok(env)
                &&& lines[0] == ser_value(#[trigger] env_jv(env))
                &&& #[trigger] env_unwraps_to(env, sk, dk)
                &&& enc_lines_open(lines.skip(1), dk, env.run_id, out)
            };
        assert(lines.drop_first() =~= lines.skip(1));
        assert(log_decrypts_to(lines, sk, out));
    } else {
        let rest = lines.drop_first();
        assert(rest =~= lines.skip(1));
        assert forall|j: int| 0 <= j < i - 1 implies blank_line(#[trigger] rest[j]) by {
            assert(rest[j] == lines[j + 1]);
        }
        assert(rest[i - 1] == lines[i]);
        assert(rest.skip(i) =~= lines.skip(i + 1));
        lemma_decrypts_prepend_blanks(rest, sk, out, i - 1);
        assert(rest.skip(0) =~= rest);
        assert(lines.skip(0) =~= lines);
        assert(blank_line(lines[0]));
        assert(log_decrypts_to(lines, sk, out));
    }
}

/// Decrypts an encrypted log: unwraps the data key from the leading
/// envelope with the recipient secret, checks that every sealed
/// record belongs to the envelope's run, and opens each into its
/// plaintext line.  On failure, the lines decrypt to nothing under
/// this secret: success is owed on every decryptable log.
#[verifier::loop_isolation(false)]
pub fn decrypt_audit_lines(lines: &Vec<Vec<u8>>, recipient_sk: &Vec<u8>) -> (r: Result<
    Vec<Vec<u8>>,
    VerifyFailure,
>)
    requires
        recipient_sk@.len() == 32,
    ensures
        r matches Ok(out) ==> log_decrypts_to(lines_view(lines@), recipient_sk@, lines_view(out@)),
        r is Err ==> (forall|o: Seq<Seq<u8>>| !#[trigger] log_decrypts_to(
            lines_view(lines@),
            recipient_sk@,
            o,
        )),
{
    let ghost lv = lines_view(lines@);
    let mut i: usize = 0;
    // find the envelope line
    let env_idx: usize;
    loop
        invariant
            i <= lines@.len(),
            forall|j: int| 0 <= j < i ==> blank_line(#[trigger] lv[j]),
        decreases lines@.len() - i,
    {
        if i >= lines.len() {
            proof {
                assert forall|o: Seq<Seq<u8>>| !#[trigger] log_decrypts_to(
                    lv,
                    recipient_sk@,
                    o,
                ) by {
                    lemma_decrypts_needs_nonblank(lv, recipient_sk@, o);
                }
            }
            return Err(VerifyFailure { line: 1, kind: AuditError::EmptyLog });
        }
        if !is_blank(&lines[i]) {
            env_idx = i;
            break;
        }
        i = i + 1;
    }
    let env = match parse_envelope(&lines[env_idx]) {
        Some(e) => e,
        None => {
            proof {
                assert forall|o: Seq<Seq<u8>>| !#[trigger] log_decrypts_to(
                    lv,
                    recipient_sk@,
                    o,
                ) by {
                    if log_decrypts_to(lv, recipient_sk@, o) {
                        lemma_decrypts_skip_blanks(lv, recipient_sk@, o, env_idx as int);
                        let (env2, dk2) = choose|env2: KeyEnvelopeV, dk2: Seq<u8>|
                            {
                                &&& env_rec_wf(env2)
                                &&& env_fixed_ok(env2)
                                &&& lv[env_idx as int] == ser_value(#[trigger] env_jv(env2))
                                &&& #[trigger] env_unwraps_to(env2, recipient_sk@, dk2)
                                &&& enc_lines_open(
                                    lv.skip(env_idx + 1),
                                    dk2,
                                    env2.run_id,
                                    o,
                                )
                            };
                        assert(lv[env_idx as int] == lines@[env_idx as int]@);
                    }
                }
            }
            return Err(VerifyFailure { line: env_idx + 1, kind: AuditError::BadEnvelope });
        },
    };
    let dk = match unwrap_envelope(&env, recipient_sk) {
        Ok(d) => d,
        Err(e) => {
            proof {
                assert forall|o: Seq<Seq<u8>>| !#[trigger] log_decrypts_to(
                    lv,
                    recipient_sk@,
                    o,
                ) by {
                    if log_decrypts_to(lv, recipient_sk@, o) {
                        lemma_decrypts_skip_blanks(lv, recipient_sk@, o, env_idx as int);
                        let (env2, dk2) = choose|env2: KeyEnvelopeV, dk2: Seq<u8>|
                            {
                                &&& env_rec_wf(env2)
                                &&& env_fixed_ok(env2)
                                &&& lv[env_idx as int] == ser_value(#[trigger] env_jv(env2))
                                &&& #[trigger] env_unwraps_to(env2, recipient_sk@, dk2)
                                &&& enc_lines_open(
                                    lv.skip(env_idx + 1),
                                    dk2,
                                    env2.run_id,
                                    o,
                                )
                            };
                        assert(lv[env_idx as int] == lines@[env_idx as int]@);
                        assert(env2 == env@);
                    }
                }
            }
            return Err(VerifyFailure { line: env_idx + 1, kind: e });
        },
    };
    let mut out: Vec<Vec<u8>> = Vec::new();
    let mut j: usize = env_idx + 1;
    proof {
        assert(lv.skip(env_idx + 1).take(0) =~= Seq::<Seq<u8>>::empty());
        assert(enc_lines_open(
            lv.skip(env_idx + 1).take(0),
            dk@,
            env@.run_id,
            lines_view(out@),
        ));
        assert forall|o: Seq<Seq<u8>>|
            #[trigger] log_decrypts_to(lv, recipient_sk@, o) implies o.len() >= lines_view(
            out@,
        ).len() && o.take(lines_view(out@).len() as int) == lines_view(out@) && enc_lines_open(
            lv.skip(j as int),
            dk@,
            env@.run_id,
            o.skip(lines_view(out@).len() as int),
        ) by {
            lemma_decrypts_skip_blanks(lv, recipient_sk@, o, env_idx as int);
            let (env2, dk2) = choose|env2: KeyEnvelopeV, dk2: Seq<u8>|
                {
                    &&& env_rec_wf(env2)
                    &&& env_fixed_ok(env2)
                    &&& lv[env_idx as int] == ser_value(#[trigger] env_jv(env2))
                    &&& #[trigger] env_unwraps_to(env2, recipient_sk@, dk2)
                    &&& enc_lines_open(lv.skip(env_idx + 1), dk2, env2.run_id, o)
                };
            assert(lv[env_idx as int] == lines@[env_idx as int]@);
            assert(env2 == env@);
            assert(dk2 == dk@);
            assert(o.take(0) =~= Seq::<Seq<u8>>::empty());
            assert(o.skip(0) =~= o);
        }
    }
    while j < lines.len()
        invariant
            env_idx + 1 <= j <= lines@.len(),
            dk@.len() == 32,
            env_unwraps_to(env@, recipient_sk@, dk@),
            enc_lines_open(
                lv.skip(env_idx + 1).take(j - env_idx - 1),
                dk@,
                env@.run_id,
                lines_view(out@),
            ),
            forall|o: Seq<Seq<u8>>|
                #[trigger] log_decrypts_to(lv, recipient_sk@, o) ==> o.len() >= lines_view(
                    out@,
                ).len() && o.take(lines_view(out@).len() as int) == lines_view(out@)
                    && enc_lines_open(
                    lv.skip(j as int),
                    dk@,
                    env@.run_id,
                    o.skip(lines_view(out@).len() as int),
                ),
        decreases lines@.len() - j,
    {
        let line = &lines[j];
        let ghost seen = lv.skip(env_idx + 1).take(j - env_idx - 1);
        let ghost outv = lines_view(out@);
        let ghost n = outv.len() as int;
        proof {
            assert(lv.skip(j as int)[0] == lines@[j as int]@);
        }
        if is_blank(line) {
            proof {
                lemma_enc_open_snoc_blank(seen, dk@, env@.run_id, outv, line@);
                assert(seen.push(line@) =~= lv.skip(env_idx + 1).take(j - env_idx));
                assert forall|o: Seq<Seq<u8>>|
                    #[trigger] log_decrypts_to(lv, recipient_sk@, o) implies enc_lines_open(
                    lv.skip(j + 1),
                    dk@,
                    env@.run_id,
                    o.skip(n),
                ) by {
                    assert(lv.skip(j as int).drop_first() =~= lv.skip(j + 1));
                }
            }
        } else {
            proof {
                assert forall|o: Seq<Seq<u8>>|
                    #[trigger] log_decrypts_to(lv, recipient_sk@, o) implies o.skip(n).len() > 0
                    && (exists|e: EncryptedRecordV|
                    {
                        &&& enc_rec_wf(e)
                        &&& enc_fixed_ok(e)
                        &&& lines@[j as int]@ == ser_value(#[trigger] enc_jv(e))
                        &&& e.run_id == env@.run_id
                        &&& enc_opens_to(e, dk@, o.skip(n)[0])
                    }) by {
                    lemma_enc_open_head(lv.skip(j as int), dk@, env@.run_id, o.skip(n));
                }
            }
            let rec = match parse_encrypted(line) {
                Some(r) => r,
                None => {
                    proof {
                        assert forall|o: Seq<Seq<u8>>| !#[trigger] log_decrypts_to(
                            lv,
                            recipient_sk@,
                            o,
                        ) by {
                            if log_decrypts_to(lv, recipient_sk@, o) {
                                let e = choose|e: EncryptedRecordV|
                                    {
                                        &&& enc_rec_wf(e)
                                        &&& enc_fixed_ok(e)
                                        &&& lines@[j as int]@ == ser_value(#[trigger] enc_jv(e))
                                        &&& e.run_id == env@.run_id
                                        &&& enc_opens_to(e, dk@, o.skip(n)[0])
                                    };
                                assert(false);
                            }
                        }
                    }
                    return Err(
                        VerifyFailure { line: j + 1, kind: AuditError::SerializationError },
                    );
                },
            };
            if !bytes_eq(&rec.run_id, &env.run_id) {
                proof {
                    assert forall|o: Seq<Seq<u8>>| !#[trigger] log_decrypts_to(
                        lv,
                        recipient_sk@,
                        o,
                    ) by {
                        if log_decrypts_to(lv, recipient_sk@, o) {
                            let e = choose|e: EncryptedRecordV|
                                {
                                    &&& enc_rec_wf(e)
                                    &&& enc_fixed_ok(e)
                                    &&& lines@[j as int]@ == ser_value(#[trigger] enc_jv(e))
                                    &&& e.run_id == env@.run_id
                                    &&& enc_opens_to(e, dk@, o.skip(n)[0])
                                };
                            assert(e == rec@);
                        }
                    }
                }
                return Err(VerifyFailure { line: j + 1, kind: AuditError::RunIdMismatch });
            }
            let plain = match decrypt_record(&rec, &dk) {
                Ok(p) => p,
                Err(e) => {
                    proof {
                        assert forall|o: Seq<Seq<u8>>| !#[trigger] log_decrypts_to(
                            lv,
                            recipient_sk@,
                            o,
                        ) by {
                            if log_decrypts_to(lv, recipient_sk@, o) {
                                let e2 = choose|e2: EncryptedRecordV|
                                    {
                                        &&& enc_rec_wf(e2)
                                        &&& enc_fixed_ok(e2)
                                        &&& lines@[j as int]@ == ser_value(#[trigger] enc_jv(e2))
                                        &&& e2.run_id == env@.run_id
                                        &&& enc_opens_to(e2, dk@, o.skip(n)[0])
                                    };
                                assert(e2 == rec@);
                            }
                        }
                    }
                    return Err(VerifyFailure { line: j + 1, kind: e });
                },
            };
            let ghost pv = plain@;
            out.push(plain);
            proof {
                lemma_enc_open_snoc_rec(seen, dk@, env@.run_id, outv, line@, rec@, pv);
                assert(seen.push(line@) =~= lv.skip(env_idx + 1).take(j - env_idx));
                assert(lines_view(out@) =~= outv.push(pv));
                assert forall|o: Seq<Seq<u8>>|
                    #[trigger] log_decrypts_to(lv, recipient_sk@, o) implies o.len()
                    >= lines_view(out@).len() && o.take(lines_view(out@).len() as int)
                    == lines_view(out@) && enc_lines_open(
                    lv.skip(j + 1),
                    dk@,
                    env@.run_id,
                    o.skip(lines_view(out@).len() as int),
                ) by {
                    let e2 = choose|e2: EncryptedRecordV|
                        {
                            &&& enc_rec_wf(e2)
                            &&& enc_fixed_ok(e2)
                            &&& lines@[j as int]@ == ser_value(#[trigger] enc_jv(e2))
                            &&& e2.run_id == env@.run_id
                            &&& enc_opens_to(e2, dk@, o.skip(n)[0])
                        };
                    assert(e2 == rec@);
                    assert(o.skip(n)[0] == pv);
                    assert(o.skip(n)[0] == o[n]);
                    assert(o.take(n + 1) =~= o.take(n).push(o[n]));
                    assert(o.take(n + 1) == lines_view(out@));
                    lemma_enc_open_head(lv.skip(j as int), dk@, env@.run_id, o.skip(n));
                    assert(lv.skip(j as int).drop_first() =~= lv.skip(j + 1));
                    assert(o.skip(n).drop_first() =~= o.skip(n + 1));
                }
            }
        }
        j = j + 1;
    }
    proof {
        assert(lv.skip(env_idx + 1).take(lines@.len() - env_idx - 1) =~= lv.skip(env_idx + 1));
        assert(exists|e2: KeyEnvelopeV, d2: Seq<u8>|
            {
                &&& env_rec_wf(e2)
                &&& env_fixed_ok(e2)
                &&& lv[env_idx as int] == ser_value(#[trigger] env_jv(e2))
                &&& #[trigger] env_unwraps_to(e2, recipient_sk@, d2)
                &&& enc_lines_open(lv.skip(env_idx + 1), d2, e2.run_id, lines_view(out@))
            }) by {
            assert(lv[env_idx as int] == ser_value(env_jv(env@)));
            assert(env_unwraps_to(env@, recipient_sk@, dk@));
        }
        lemma_decrypts_prepend_blanks(lv, recipient_sk@, lines_view(out@), env_idx as int);
        assert(lv.skip(0) =~= lv);
    }
    Ok(out)
}

/// The event ids of the event records from position `i` on, in
/// order.
pub open spec fn event_ids_from(recs: Seq<AuditRecordV>, i: int) -> Seq<u64>
    decreases recs.len() - i,
{
    if i < 0 || i >= recs.len() {
        Seq::empty()
    } else {
        match recs[i] {
            AuditRecordV::Event { log, .. } => seq![log.event_id] + event_ids_from(recs, i + 1),
            AuditRecordV::Checkpoint { .. } => event_ids_from(recs, i + 1),
        }
    }
}

/// A clean replay forces dense event ids: from any reached state,
/// the ids of the remaining events continue the sequence without a
/// gap.
pub proof fn lemma_replay_ids_dense(
    s: VerifyStateV,
    recs: Seq<AuditRecordV>,
    i: int,
    pubkey: Seq<u8>,
)
    requires
        0 <= i <= recs.len(),
        s.events >= 0,
        replay_from(s, recs, i, pubkey) is Ok,
    ensures
        forall|j: int|
            0 <= j < event_ids_from(recs, i).len() ==> #[trigger] event_ids_from(recs, i)[j] as int
                == (if s.events == 0 {
                    1int
                } else {
                    s.last_event_id as int + 1
                }) + j,
    decreases recs.len() - i,
{
    if i < recs.len() {
        let start: int = if s.events == 0 {
            1int
        } else {
            s.last_event_id as int + 1
        };
        match recs[i] {
            AuditRecordV::Event { log, integrity } => {
                let s2 = event_step(s, log, integrity)->Ok_0;
                lemma_replay_ids_dense(s2, recs, i + 1, pubkey);
                assert(log.event_id as int == start);
                assert forall|j: int|
                    0 <= j < event_ids_from(recs, i).len() implies #[trigger] event_ids_from(
                    recs,
                    i,
                )[j] as int == start + j by {
                    if j == 0 {
                        assert(event_ids_from(recs, i)[0] == log.event_id);
                    } else {
                        assert(event_ids_from(recs, i)[j] == event_ids_from(recs, i + 1)[j - 1]);
                        assert(event_ids_from(recs, i + 1)[j - 1] as int == (s2.last_event_id
                            as int + 1) + (j - 1));
                    }
                }
            },
            AuditRecordV::Checkpoint {
                run_id,
                created_ts_ms,
                last_event_id,
                last_entry_hash_b64,
                signature_b64,
                key_id,
                hash_alg,
                sig_alg,
                version,
            } => {
                let s2 = checkpoint_step(
                    s,
                    run_id,
                    last_event_id,
                    last_entry_hash_b64,
                    signature_b64,
                    key_id,
                    hash_alg,
                    sig_alg,
                    version,
                    pubkey,
                )->Ok_0;
                lemma_replay_ids_dense(s2, recs, i + 1, pubkey);
                assert(s2.events == s.events && s2.last_event_id == s.last_event_id);
                assert(event_ids_from(recs, i) == event_ids_from(recs, i + 1));
                assert forall|j: int|
                    0 <= j < event_ids_from(recs, i).len() implies #[trigger] event_ids_from(
                    recs,
                    i,
                )[j] as int == (if s.events == 0 {
                    1int
                } else {
                    s.last_event_id as int + 1
                }) + j by {
                    assert(event_ids_from(recs, i + 1)[j] as int == (if s2.events == 0 {
                        1int
                    } else {
                        s2.last_event_id as int + 1
                    }) + j);
                }
            },
        }
    }
}

/// Id contiguity: in any record sequence the verifier accepts, the
/// event ids are exactly `1, 2, 3, …`.
pub proof fn lemma_verified_ids_contiguous(recs: Seq<AuditRecordV>, pubkey: Seq<u8>)
    requires
        verify_records_spec(recs, pubkey) is Ok,
    ensures
        forall|j: int|
            0 <= j < event_ids_from(recs, 0).len() ==> #[trigger] event_ids_from(recs, 0)[j] as int
                == j + 1,
{
    lemma_replay_ids_dense(init_state(), recs, 0, pubkey);
}


/// Whether the first non-blank line is the written form of a key
/// envelope.
pub open spec fn first_nonblank_is_envelope(lines: Seq<Seq<u8>>) -> bool
    decreases lines.len(),
{
    if lines.len() == 0 {
        false
    } else if blank_line(lines[0]) {
        first_nonblank_is_envelope(lines.drop_first())
    } else {
        exists|e: KeyEnvelopeV|
            env_rec_wf(e) && env_fixed_ok(e) && lines[0] == ser_value(#[trigger] env_jv(e))
    }
}

/// Every record of the sequence is well-formed.
pub open spec fn all_rec_wf(recs: Seq<AuditRecordV>) -> bool {
    forall|j: int| 0 <= j < recs.len() ==> record_wf(#[trigger] recs[j])
}

/// The records with their payloads in canonical form.
pub open spec fn canon_recs(recs: Seq<AuditRecordV>) -> Seq<AuditRecordV> {
    Seq::new(
        recs.len(),
        |j: int|
            if 0 <= j < recs.len() {
                canon_rec(recs[j])
            } else {
                arbitrary()
            },
    )
}

/// Canonicalizing the payload changes nothing the replay rules see:
/// the hashed projection is unchanged (canonicalization is a fixed
/// point), and so are all other fields.
proof fn lemma_event_step_canon(s: VerifyStateV, log: McpLogV, integ: IntegrityFieldsV)
    ensures
        event_step(s, canon_log(log), integ) == event_step(s, log, integ),
{
    crate::canon::lemma_canon_idempotent(log.payload);
    assert(signable_jv(canon_log(log))->Obj_0 =~= signable_jv(log)->Obj_0);
    assert(signable_jv(canon_log(log)) =~= signable_jv(log));
    assert(entry_hash_of(s.prev_hash, canon_log(log)) == entry_hash_of(s.prev_hash, log));
}

proof fn lemma_record_step_canon(s: VerifyStateV, rec: AuditRecordV, pubkey: Seq<u8>)
    ensures
        record_step(s, canon_rec(rec), pubkey) == record_step(s, rec, pubkey),
{
    match rec {
        AuditRecordV::Event { log, integrity } => {
            lemma_event_step_canon(s, log, integrity);
        },
        AuditRecordV::Checkpoint { .. } => {},
    }
}

/// Replay does not see payload canonicalization.
proof fn lemma_replay_canon(s: VerifyStateV, recs: Seq<AuditRecordV>, i: int, pubkey: Seq<u8>)
    requires
        0 <= i <= recs.len(),
    ensures
        replay_from(s, canon_recs(recs), i, pubkey) == replay_from(s, recs, i, pubkey),
    decreases recs.len() - i,
{
    if i < recs.len() {
        lemma_record_step_canon(s, recs[i], pubkey);
        assert(canon_recs(recs)[i] == canon_rec(recs[i]));
        match record_step(s, recs[i], pubkey) {
            Ok(s2) => {
                lemma_replay_canon(s2, recs, i + 1, pubkey);
            },
            Err(_) => {},
        }
    }
}

/// The record-level verdict does not see payload canonicalization.
proof fn lemma_verify_records_canon(recs: Seq<AuditRecordV>, pubkey: Seq<u8>)
    ensures
        verify_records_spec(canon_recs(recs), pubkey) == verify_records_spec(recs, pubkey),
{
    lemma_replay_canon(init_state(), recs, 0, pubkey);
}

/// Removing a trailing blank line does not change what a line list
/// represents.
proof fn lemma_represent_snoc_blank_inv(lines: Seq<Seq<u8>>, recs: Seq<AuditRecordV>, l: Seq<u8>)
    requires
        lines_represent(lines.push(l), recs),
        blank_line(l),
    ensures
        lines_represent(lines, recs),
    decreases lines.len(),
{
    if lines.len() == 0 {
        assert(lines.push(l)[0] == l);
        assert(lines.push(l).drop_first() =~= lines);
    } else {
        assert(lines.push(l)[0] == lines[0]);
        assert(lines.push(l).drop_first() =~= lines.drop_first().push(l));
        if blank_line(lines[0]) {
            lemma_represent_snoc_blank_inv(lines.drop_first(), recs, l);
        } else {
            lemma_represent_snoc_blank_inv(lines.drop_first(), recs.drop_first(), l);
            assert(lines_represent(lines, recs));
        }
    }
}

/// A trailing non-blank line corresponds to the last represented
/// record.
proof fn lemma_represent_snoc_rec_inv(lines: Seq<Seq<u8>>, recs: Seq<AuditRecordV>, l: Seq<u8>)
    requires
        lines_represent(lines.push(l), recs),
        !blank_line(l),
    ensures
        recs.len() >= 1,
        l == ser_value(record_jv(recs.last())),
        lines_represent(lines, recs.drop_last()),
    decreases lines.len(),
{
    if lines.len() == 0 {
        assert(lines.push(l)[0] == l);
        assert(lines.push(l).drop_first() =~= lines);
        assert(lines_represent(lines, recs.drop_first()));
        assert(recs.drop_first().len() == 0);
        assert(recs.len() == 1);
        assert(recs[0] == recs.last());
        assert(recs.drop_last() =~= Seq::<AuditRecordV>::empty());
    } else {
        assert(lines.push(l)[0] == lines[0]);
        assert(lines.push(l).drop_first() =~= lines.drop_first().push(l));
        if blank_line(lines[0]) {
            lemma_represent_snoc_rec_inv(lines.drop_first(), recs, l);
            assert(lines_represent(lines, recs.drop_last()));
        } else {
            lemma_represent_snoc_rec_inv(lines.drop_first(), recs.drop_first(), l);
            assert(recs.drop_first().len() >= 1);
            assert(recs.drop_first().last() == recs.last());
            assert(recs.drop_last().len() >= 1);
            assert(recs.drop_last()[0] == recs[0]);
            assert(recs.drop_last().drop_first() =~= recs.drop_first().drop_last());
            assert(lines_represent(lines, recs.drop_last()));
        }
    }
}

/// Splitting a represented line list at any point splits the records
/// with it.
proof fn lemma_represent_split_at(lines: Seq<Seq<u8>>, recs: Seq<AuditRecordV>, i: int)
    requires
        lines_represent(lines, recs),
        0 <= i <= lines.len(),
    ensures
        exists|k: int|
            0 <= k <= recs.len() && lines_represent(lines.take(i), #[trigger] recs.take(k))
                && lines_represent(lines.skip(i), recs.skip(k)),
    decreases i,
{
    if i == 0 {
        assert(lines.take(0) =~= Seq::<Seq<u8>>::empty());
        assert(lines.skip(0) =~= lines);
        assert(recs.take(0) =~= Seq::<AuditRecordV>::empty());
        assert(recs.skip(0) =~= recs);
        assert(lines_represent(lines.take(0), recs.take(0)));
    } else {
        // move one line from the suffix to the prefix
        lemma_represent_split_at(lines, recs, i - 1);
        let k0 = choose|k: int|
            0 <= k <= recs.len() && lines_represent(lines.take(i - 1), #[trigger] recs.take(k))
                && lines_represent(lines.skip(i - 1), recs.skip(k));
        let suffix = lines.skip(i - 1);
        assert(suffix[0] == lines[i - 1]);
        assert(suffix.drop_first() =~= lines.skip(i));
        if blank_line(lines[i - 1]) {
            lemma_represent_snoc_blank(lines.take(i - 1), recs.take(k0), lines[i - 1]);
            assert(lines.take(i - 1).push(lines[i - 1]) =~= lines.take(i));
            assert(lines_represent(lines.take(i), recs.take(k0)));
            assert(lines_represent(lines.skip(i), recs.skip(k0)));
        } else {
            assert(recs.skip(k0).len() > 0);
            assert(lines[i - 1] == ser_value(record_jv(recs.skip(k0)[0])));
            assert(recs.skip(k0)[0] == recs[k0]);
            lemma_represent_snoc_rec(lines.take(i - 1), recs.take(k0), lines[i - 1], recs[k0]);
            assert(lines.take(i - 1).push(lines[i - 1]) =~= lines.take(i));
            assert(recs.take(k0).push(recs[k0]) =~= recs.take(k0 + 1));
            assert(lines_represent(lines.take(i), recs.take(k0 + 1)));
            assert(recs.skip(k0).drop_first() =~= recs.skip(k0 + 1));
            assert(lines_represent(lines.skip(i), recs.skip(k0 + 1)));
        }
    }
}


/// A log with only blank lines decrypts to nothing.
proof fn lemma_decrypts_needs_nonblank(lines: Seq<Seq<u8>>, sk: Seq<u8>, out: Seq<Seq<u8>>)
    requires
        forall|j: int| 0 <= j < lines.len() ==> blank_line(#[trigger] lines[j]),
    ensures
        !log_decrypts_to(lines, sk, out),
    decreases lines.len(),
{
    if lines.len() > 0 {
        assert forall|j: int|
            0 <= j < lines.drop_first().len() implies blank_line(
            #[trigger] lines.drop_first()[j],
        ) by {
            assert(lines.drop_first()[j] == lines[j + 1]);
        }
        lemma_decrypts_needs_nonblank(lines.drop_first(), sk, out);
    }
}

/// Walking over leading blanks: what a decryptable log's first
/// non-blank line must be.
proof fn lemma_decrypts_skip_blanks(
    lines: Seq<Seq<u8>>,
    sk: Seq<u8>,
    out: Seq<Seq<u8>>,
    i: int,
)
    requires
        log_decrypts_to(lines, sk, out),
        0 <= i < lines.len(),
        forall|j: int| 0 <= j < i ==> blank_line(#[trigger] lines[j]),
        !blank_line(lines[i]),
    ensures
        exists|env: KeyEnvelopeV, dk: Seq<u8>|
            {
                &&& env_rec_wf(env)
                &&& env_fixed_ok(env)
                &&& lines[i] == ser_value(#[trigger] env_jv(env))
                &&& #[trigger] env_unwraps_to(env, sk, dk)
                &&& enc_lines_open(lines.skip(i + 1), dk, env.run_id, out)
            },
    decreases i,
{
    if i == 0 {
        assert(lines.drop_first() =~= lines.skip(1));
    } else {
        assert(blank_line(lines[0]));
        let rest = lines.drop_first();
        assert forall|j: int| 0 <= j < i - 1 implies blank_line(#[trigger] rest[j]) by {
            assert(rest[j] == lines[j + 1]);
        }
        assert(rest[i - 1] == lines[i]);
        lemma_decrypts_skip_blanks(rest, sk, out, i - 1);
        let (env, dk) = choose|env: KeyEnvelopeV, dk: Seq<u8>|
            {
                &&& env_rec_wf(env)
                &&& env_fixed_ok(env)
                &&& rest[i - 1] == ser_value(#[trigger] env_jv(env))
                &&& #[trigger] env_unwraps_to(env, sk, dk)
                &&& enc_lines_open(rest.skip(i), dk, env.run_id, out)
            };
        assert(rest.skip(i) =~= lines.skip(i + 1));
        assert(enc_lines_open(lines.skip(i + 1), dk, env.run_id, out));
    }
}

/// Peeling the head of an open sealed-line sequence.
proof fn lemma_enc_open_head(
    lines: Seq<Seq<u8>>,
    dk: Seq<u8>,
    run_id: Seq<u8>,
    out: Seq<Seq<u8>>,
)
    requires
        enc_lines_open(lines, dk, run_id, out),
        lines.len() > 0,
        !blank_line(lines[0]),
    ensures
        out.len() > 0,
        exists|e: EncryptedRecordV|
            {
                &&& enc_rec_wf(e)
                &&& enc_fixed_ok(e)
                &&& lines[0] == ser_value(#[trigger] enc_jv(e))
                &&& e.run_id == run_id
                &&& enc_opens_to(e, dk, out[0])
            },
        enc_lines_open(lines.drop_first(), dk, run_id, out.drop_first()),
{
}


/// Whether a line is the written form of some well-formed checkpoint
/// record.
pub open spec fn is_checkpoint_line(l: Seq<u8>) -> bool {
    exists|c: AuditRecordV|
        (c is Checkpoint) && record_wf(c) && l == ser_value(#[trigger] record_jv(c))
}

/// The key id named by the first line that is a checkpoint record;
/// used as the append-time precheck against signing-key rotation.
#[verifier::loop_isolation(false)]
pub fn first_checkpoint_key_id(lines: &Vec<Vec<u8>>) -> (r: Option<Vec<u8>>)
    ensures
        r matches Some(k) ==> exists|i: int, c: AuditRecordV|
            #![trigger record_jv(c), lines@[i]]
            {
                &&& 0 <= i < lines@.len()
                &&& (c is Checkpoint)
                &&& lines@[i]@ == ser_value(record_jv(c))
                &&& k@ == c->Checkpoint_key_id
                &&& forall|j: int| 0 <= j < i ==> !is_checkpoint_line(#[trigger] lines@[j]@)
            },
        r is None ==> forall|i: int|
            0 <= i < lines@.len() ==> !is_checkpoint_line(#[trigger] lines@[i]@),
{
    let mut i: usize = 0;
    while i < lines.len()
        invariant
            i <= lines@.len(),
            forall|j: int| 0 <= j < i ==> !is_checkpoint_line(#[trigger] lines@[j]@),
        decreases lines@.len() - i,
    {
        match parse_record(&lines[i]) {
            Some(rec) => {
                match rec {
                    AuditRecord::Checkpoint { key_id, .. } => {
                        proof {
                            assert(lines@[i as int]@ == ser_value(record_jv(rec@)));
                            assert(rec@ is Checkpoint);
                            assert(key_id@ == rec@->Checkpoint_key_id);
                        }
                        return Some(key_id);
                    },
                    AuditRecord::Event { .. } => {
                        proof {
                            assert forall|j: int| 0 <= j < i + 1 implies !is_checkpoint_line(
                                #[trigger] lines@[j]@,
                            ) by {
                                if j == i && is_checkpoint_line(lines@[j]@) {
                                    let c = choose|c: AuditRecordV|
                                        (c is Checkpoint) && record_wf(c) && lines@[j]@
                                            == ser_value(#[trigger] record_jv(c));
                                    assert(rec@ == crate::records::canon_rec(c));
                                }
                            }
                        }
                    },
                }
            },
            None => {
                proof {
                    assert forall|j: int| 0 <= j < i + 1 implies !is_checkpoint_line(
                        #[trigger] lines@[j]@,
                    ) by {
                        if j == i && is_checkpoint_line(lines@[j]@) {
                            let c = choose|c: AuditRecordV|
                                (c is Checkpoint) && record_wf(c) && lines@[j]@ == ser_value(
                                    #[trigger] record_jv(c),
                                );
                            assert(false);
                        }
                    }
                }
            },
        }
        i = i + 1;
    }
    None
}

} // verus!
