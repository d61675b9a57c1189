//! The error kinds of the audit pipeline and verifier.
use vstd::prelude::*;

verus! {

#[derive(Clone, Copy, PartialEq, Eq, Structural, Debug)]
pub enum AuditError {
    /// A key file did not hold 32 base64 bytes.
    BadKeyFile,
    /// The first line of an encrypted log is not a usable envelope.
    BadEnvelope,
    /// Wrap, unwrap, AEAD or signature failure.
    CryptoFailure,
    /// An event's previous-hash or entry-hash does not match the chain.
    ChainMismatch,
    /// Event ids are not dense.
    IdGap,
    /// A record carries a different run id.
    RunIdMismatch,
    /// A checkpoint names a different signing key.
    KeyIdMismatch,
    /// The log ended without any checkpoint.
    MissingCheckpoint,
    /// The log holds no events.
    EmptyLog,
    /// The underlying reader or writer failed.
    IoError,
    /// A line is not a record in canonical form.
    SerializationError,
}

} // verus!
