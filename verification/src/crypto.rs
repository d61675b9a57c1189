//! Trusted wrappers around the cryptographic primitives: each names
//! what the outside call returns and states only what the outside
//! crate's source or documentation shows.
use chacha20poly1305::aead::{Aead, KeyInit, Payload};
use ed25519_dalek::Signer;
use rand::RngCore;
use sha2::Digest;
use zeroize::Zeroize;
use vstd::prelude::*;

verus! {

/// The blake3 digest of a byte string.
pub uninterp spec fn blake3_of(data: Seq<u8>) -> Seq<u8>;

/// Relies on `blake3::hash`: a 32-byte digest determined by the input
/// bytes alone.
#[verifier::external_body]
pub fn blake3_hash(data: &Vec<u8>) -> (r: Vec<u8>)
    ensures
        r@ == blake3_of(data@),
        r@.len() == 32,
{
    blake3::hash(data.as_slice()).as_bytes().to_vec()
}

/// The SHA-256 digest of a byte string.
pub uninterp spec fn sha256_of(data: Seq<u8>) -> Seq<u8>;

/// Relies on `sha2::Sha256::digest`: a 32-byte digest determined by
/// the input bytes alone.
#[verifier::external_body]
pub fn sha256_hash(data: &Vec<u8>) -> (r: Vec<u8>)
    ensures
        r@ == sha256_of(data@),
        r@.len() == 32,
{
    sha2::Sha256::digest(data.as_slice()).to_vec()
}

/// The Ed25519 public key derived from a 32-byte seed.
pub uninterp spec fn ed25519_pub_of(seed: Seq<u8>) -> Seq<u8>;

/// The Ed25519 signature of a message under a seed (Ed25519 signing
/// is deterministic).
pub uninterp spec fn ed25519_sig_of(seed: Seq<u8>, msg: Seq<u8>) -> Seq<u8>;

/// Whether strict Ed25519 verification accepts (public key bytes,
/// message, signature bytes); a function of its arguments.
pub uninterp spec fn ed25519_verify_of(pk: Seq<u8>, msg: Seq<u8>, sig: Seq<u8>) -> bool;

/// Relies on `ed25519_dalek::SigningKey::from_bytes` and
/// `verifying_key`: the public key is a function of the seed.
#[verifier::external_body]
pub fn ed25519_derive_pub(seed: &Vec<u8>) -> (r: Vec<u8>)
    requires
        seed@.len() == 32,
    ensures
        r@ == ed25519_pub_of(seed@),
        r@.len() == 32,
{
    let mut s = [0u8; 32];
    s.copy_from_slice(seed);
    ed25519_dalek::SigningKey::from_bytes(&s).verifying_key().to_bytes().to_vec()
}

/// Relies on `ed25519_dalek::Signer::sign` (deterministic Ed25519)
/// and on `verify_strict` accepting signatures made with the matching
/// key, as its documentation states.
#[verifier::external_body]
pub fn ed25519_sign(seed: &Vec<u8>, msg: &Vec<u8>) -> (r: Vec<u8>)
    requires
        seed@.len() == 32,
    ensures
        r@ == ed25519_sig_of(seed@, msg@),
        r@.len() == 64,
        ed25519_verify_of(ed25519_pub_of(seed@), msg@, r@),
{
    let mut s = [0u8; 32];
    s.copy_from_slice(seed);
    let sig = ed25519_dalek::SigningKey::from_bytes(&s).sign(msg.as_slice());
    sig.to_bytes().to_vec()
}

/// Relies on `ed25519_dalek::VerifyingKey::from_bytes` and
/// `verify_strict`: acceptance is a function of the key, message and
/// signature bytes; undecodable key bytes accept nothing.
#[verifier::external_body]
pub fn ed25519_verify(pk: &Vec<u8>, msg: &Vec<u8>, sig: &Vec<u8>) -> (r: bool)
    requires
        pk@.len() == 32,
        sig@.len() == 64,
    ensures
        r == ed25519_verify_of(pk@, msg@, sig@),
        !ed25519_pub_decodable_of(pk@) ==> r == false,
{
    let mut p = [0u8; 32];
    p.copy_from_slice(pk);
    let mut sg = [0u8; 64];
    sg.copy_from_slice(sig);
    match ed25519_dalek::VerifyingKey::from_bytes(&p) {
        Ok(vk) => vk.verify_strict(msg.as_slice(), &ed25519_dalek::Signature::from_bytes(&sg))
            .is_ok(),
        Err(_) => false,
    }
}

/// Whether 32 bytes decode to a valid Ed25519 verifying key.
pub uninterp spec fn ed25519_pub_decodable_of(pk: Seq<u8>) -> bool;

/// Relies on `ed25519_dalek::VerifyingKey::from_bytes`: whether the
/// bytes decode to a valid public key is a function of the bytes.
#[verifier::external_body]
pub fn ed25519_pub_decodable(pk: &Vec<u8>) -> (r: bool)
    requires
        pk@.len() == 32,
    ensures
        r == ed25519_pub_decodable_of(pk@),
{
    let mut p = [0u8; 32];
    p.copy_from_slice(pk);
    ed25519_dalek::VerifyingKey::from_bytes(&p).is_ok()
}

/// The X25519 function on (scalar bytes, point bytes).
pub uninterp spec fn x25519_of(sk: Seq<u8>, pk: Seq<u8>) -> Seq<u8>;

/// The curve's base point: 9 followed by 31 zero bytes.
pub open spec fn x25519_base() -> Seq<u8> {
    seq![9u8] + Seq::new(31, |i: int| 0u8)
}

/// Relies on `x25519_dalek::x25519` with `X25519_BASEPOINT_BYTES`:
/// the public key of a private scalar.
#[verifier::external_body]
pub fn x25519_derive_pub(sk: &Vec<u8>) -> (r: Vec<u8>)
    requires
        sk@.len() == 32,
    ensures
        r@ == x25519_of(sk@, x25519_base()),
        r@.len() == 32,
{
    let mut s = [0u8; 32];
    s.copy_from_slice(sk);
    x25519_dalek::x25519(s, x25519_dalek::X25519_BASEPOINT_BYTES).to_vec()
}

/// Relies on `x25519_dalek::x25519`: the RFC 7748 Diffie-Hellman
/// function, for which both sides of an exchange derive the same
/// shared secret.
#[verifier::external_body]
pub fn x25519_shared(sk: &Vec<u8>, pk: &Vec<u8>) -> (r: Vec<u8>)
    requires
        sk@.len() == 32,
        pk@.len() == 32,
    ensures
        r@ == x25519_of(sk@, pk@),
        r@.len() == 32,
        forall|osk: Seq<u8>|
            pk@ == #[trigger] x25519_of(osk, x25519_base()) ==> r@ == x25519_of(
                osk,
                x25519_of(sk@, x25519_base()),
            ),
{
    let mut s = [0u8; 32];
    s.copy_from_slice(sk);
    let mut p = [0u8; 32];
    p.copy_from_slice(pk);
    x25519_dalek::x25519(s, p).to_vec()
}

/// The 32-byte HKDF-SHA256 expansion of (input key material, info).
pub uninterp spec fn hkdf32_of(ikm: Seq<u8>, info: Seq<u8>) -> Seq<u8>;

/// Relies on `hkdf::Hkdf::<Sha256>::new(None, ikm)` and `expand`:
/// 32 bytes determined by the key material and info; expansion to
/// 32 bytes never fails.
#[verifier::external_body]
pub fn hkdf_sha256_expand32(ikm: &Vec<u8>, info: &Vec<u8>) -> (r: Vec<u8>)
    ensures
        r@ == hkdf32_of(ikm@, info@),
        r@.len() == 32,
{
    let hk = hkdf::Hkdf::<sha2::Sha256>::new(None, ikm.as_slice());
    let mut okm = [0u8; 32];
    let _ = hk.expand(info.as_slice(), &mut okm);
    okm.to_vec()
}

/// One (key, nonce) pair seals at most this many message bytes: the
/// cipher refuses longer inputs before its 32-bit block counter
/// could overflow.
pub const CHACHA_MAX_MSG: u64 = 274877906880;

/// What ChaCha20-Poly1305 encryption returns for (key, nonce, aad,
/// message).
pub uninterp spec fn chacha_seal_of(key: Seq<u8>, nonce: Seq<u8>, aad: Seq<u8>, msg: Seq<u8>) -> Seq<u8>;

/// What ChaCha20-Poly1305 decryption returns for (key, nonce, aad,
/// ciphertext): the plaintext, or nothing when authentication fails.
pub uninterp spec fn chacha_open_of(key: Seq<u8>, nonce: Seq<u8>, aad: Seq<u8>, ct: Seq<u8>) -> Option<Seq<u8>>;

/// Relies on `chacha20poly1305::ChaCha20Poly1305::encrypt`:
/// deterministic in key, nonce, aad and message; the ciphertext is
/// the message length plus the 16-byte tag, and decrypting it with
/// the same parameters returns the message.  The cipher refuses
/// messages at or above its block-counter limit, so such inputs are
/// excluded here.
#[verifier::external_body]
pub fn chacha_seal(key: &Vec<u8>, nonce: &Vec<u8>, aad: &Vec<u8>, msg: &Vec<u8>) -> (r: Vec<u8>)
    requires
        key@.len() == 32,
        nonce@.len() == 12,
        msg@.len() < CHACHA_MAX_MSG,
    ensures
        r@ == chacha_seal_of(key@, nonce@, aad@, msg@),
        r@.len() == msg@.len() + 16,
        chacha_open_of(key@, nonce@, aad@, r@) == Some(msg@),
{
    let cipher = chacha20poly1305::ChaCha20Poly1305::new(
        chacha20poly1305::Key::from_slice(key),
    );
    cipher.encrypt(
        chacha20poly1305::Nonce::from_slice(nonce),
        Payload { msg: msg.as_slice(), aad: aad.as_slice() },
    ).unwrap()
}

/// Relies on `chacha20poly1305::ChaCha20Poly1305::decrypt`:
/// acceptance and plaintext are functions of key, nonce, aad and
/// ciphertext.
#[verifier::external_body]
pub fn chacha_open(key: &Vec<u8>, nonce: &Vec<u8>, aad: &Vec<u8>, ct: &Vec<u8>) -> (r: Option<
    Vec<u8>,
>)
    requires
        key@.len() == 32,
        nonce@.len() == 12,
    ensures
        match r {
            Some(v) => chacha_open_of(key@, nonce@, aad@, ct@) == Some(v@),
            None => chacha_open_of(key@, nonce@, aad@, ct@) is None,
        },
{
    let cipher = chacha20poly1305::ChaCha20Poly1305::new(
        chacha20poly1305::Key::from_slice(key),
    );
    match cipher.decrypt(
        chacha20poly1305::Nonce::from_slice(nonce),
        Payload { msg: ct.as_slice(), aad: aad.as_slice() },
    ) {
        Ok(v) => Some(v),
        Err(_) => None,
    }
}

/// Relies on `rand::rngs::OsRng::fill_bytes`: `n` bytes from the
/// operating system's cryptographic random number generator; nothing
/// is promised of their values.
#[verifier::external_body]
pub fn random_bytes(n: usize) -> (r: Vec<u8>)
    ensures
        r@.len() == n,
{
    let mut b = vec![0u8; n];
    rand::rngs::OsRng.fill_bytes(&mut b);
    b
}

/// Relies on `uuid::Uuid::new_v4` and its hyphenated `Display`
/// format: 36 bytes of lowercase hex digits and hyphens.
#[verifier::external_body]
pub fn random_uuid() -> (r: Vec<u8>)
    ensures
        r@.len() == 36,
        forall|i: int|
            0 <= i < r@.len() ==> ((0x30 <= #[trigger] r@[i] && r@[i] <= 0x39) || (0x61 <= r@[i]
                && r@[i] <= 0x66) || r@[i] == 0x2d),
{
    uuid::Uuid::new_v4().to_string().into_bytes()
}

/// Relies on `zeroize::Zeroize` for `Vec<u8>`: the contents are
/// overwritten with zeros (non-elidably) and the vector is cleared.
#[verifier::external_body]
pub fn wipe_bytes(b: &mut Vec<u8>)
    ensures
        final(b)@.len() == 0,
{
    b.zeroize();
}

} // verus!
