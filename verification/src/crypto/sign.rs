//! Signatures: Ed25519 alone, and a hybrid of Ed25519 and the post-quantum
//! Dilithium2 scheme (the two signatures side by side).
use vstd::prelude::*;

verus! {

pub const ED25519_SIG_LEN: usize = 64;
pub const DILITHIUM2_SIG_LEN: usize = 2420;
pub const HYBRID_SIG_LEN: usize = 2484;

/// Size of a Dilithium2 public key.
pub const DILITHIUM2_PUBLIC_KEY_LEN: usize = 1312;
/// Size of a Dilithium2 secret key.
pub const DILITHIUM2_SECRET_KEY_LEN: usize = 2560;

/// A Dilithium2 public key, held as its bytes.
pub struct PQPublicKey {
    bytes: [u8; DILITHIUM2_PUBLIC_KEY_LEN],
}

/// A Dilithium2 secret key, held as its bytes.
pub struct PQSecretKey {
    bytes: [u8; DILITHIUM2_SECRET_KEY_LEN],
}

impl View for PQPublicKey {
    type V = Seq<u8>;

    closed spec fn view(&self) -> Seq<u8> {
        self.bytes@
    }
}

impl View for PQSecretKey {
    type V = Seq<u8>;

    closed spec fn view(&self) -> Seq<u8> {
        self.bytes@
    }
}

/// The Dilithium2 detached signature of `message` under the secret key with
/// the bytes `secret_key` (PQClean's signing, which is deterministic).
pub uninterp spec fn dilithium2_signature(secret_key: Seq<u8>, message: Seq<u8>) -> Seq<u8>;

/// Whether `signature` is a valid Dilithium2 detached signature of `message`
/// under the public key with the bytes `public_key` (false where the
/// signature is longer than the scheme's signatures).
pub uninterp spec fn dilithium2_verifies(public_key: Seq<u8>, message: Seq<u8>, signature: Seq<u8>) -> bool;

/// The Ed25519 signature (deterministic, RFC 8032) of `message` under the
/// 32-byte secret key `secret_key`.
pub uninterp spec fn ed25519_signature(secret_key: Seq<u8>, message: Seq<u8>) -> Seq<u8>;

/// Whether `signature` is a valid Ed25519 signature of `message` under the
/// public key `public_key` (false where the key or the signature is malformed).
pub uninterp spec fn ed25519_verifies(public_key: Seq<u8>, message: Seq<u8>, signature: Seq<u8>) -> bool;

/// `ed25519_dalek::SigningKey::from_bytes(sk).sign(message).to_bytes()`.
#[verifier::external_body]
fn ed25519_sign(secret_key: &[u8; 32], message: &[u8]) -> (sig: [u8; 64])
    ensures
        sig@ == ed25519_signature(secret_key@, message@),
{
    ed25519_dalek::Signer::sign(&ed25519_dalek::SigningKey::from_bytes(secret_key), message).to_bytes()
}

/// `ed25519_dalek::VerifyingKey::from_bytes`, `Signature::from_slice` and
/// `Verifier::verify`; false where any of them fails.
#[verifier::external_body]
fn ed25519_verify(public_key: &[u8; 32], message: &[u8], signature: &[u8]) -> (ok: bool)
    ensures
        ok == ed25519_verifies(public_key@, message@, signature@),
{
    let pk = match ed25519_dalek::VerifyingKey::from_bytes(public_key) {
        Ok(pk) => pk,
        Err(_) => return false,
    };
    let sig = match ed25519_dalek::Signature::from_slice(signature) {
        Ok(sig) => sig,
        Err(_) => return false,
    };
    ed25519_dalek::Verifier::verify(&pk, message, &sig).is_ok()
}

/// `pqcrypto_dilithium::dilithium2::detached_sign` under the secret key with
/// the bytes `secret_key` (`SecretKey::from_bytes` takes any slice of the key
/// size): the detached signature's bytes (the scheme's signatures are always
/// 2420 bytes). PQClean signs deterministically (its per-signature
/// randomness is fixed to zeros), so the bytes are a function of the key and
/// the message.
#[verifier::external_body]
fn dilithium2_sign(message: &[u8], secret_key: &[u8; DILITHIUM2_SECRET_KEY_LEN]) -> (sig: [u8; 2420])
    ensures
        sig@ == dilithium2_signature(secret_key@, message@),
{
    let sk = <pqcrypto_dilithium::dilithium2::SecretKey as pqcrypto_traits::sign::SecretKey>::from_bytes(secret_key);
    let s = pqcrypto_dilithium::dilithium2::detached_sign(message, &sk.unwrap());
    let mut out = [0u8; 2420];
    out.copy_from_slice(pqcrypto_traits::sign::DetachedSignature::as_bytes(&s));
    out
}

/// `DetachedSignature::from_bytes` then
/// `pqcrypto_dilithium::dilithium2::verify_detached_signature` under the
/// public key with the bytes `public_key` (`PublicKey::from_bytes` takes any
/// slice of the key size); false where the signature is refused.
#[verifier::external_body]
fn dilithium2_verify(signature: &[u8], message: &[u8], public_key: &[u8; DILITHIUM2_PUBLIC_KEY_LEN]) -> (ok: bool)
    ensures
        ok == dilithium2_verifies(public_key@, message@, signature@),
{
    let pk = <pqcrypto_dilithium::dilithium2::PublicKey as pqcrypto_traits::sign::PublicKey>::from_bytes(public_key);
    match <pqcrypto_dilithium::dilithium2::DetachedSignature as pqcrypto_traits::sign::DetachedSignature>::from_bytes(
        signature,
    ) {
        Ok(sig) => pqcrypto_dilithium::dilithium2::verify_detached_signature(&sig, message, &pk.unwrap()).is_ok(),
        Err(_) => false,
    }
}

/// `pqcrypto_dilithium::dilithium2::keypair`: a fresh random Dilithium2 key
/// pair, handed back as the bytes of the public key and of the secret key.
/// Nothing is stated of the bytes: they are random.
#[verifier::external_body]
fn dilithium2_keypair() -> (keys: ([u8; DILITHIUM2_PUBLIC_KEY_LEN], [u8; DILITHIUM2_SECRET_KEY_LEN]))
{
    let (pk, sk) = pqcrypto_dilithium::dilithium2::keypair();
    let mut p = [0u8; DILITHIUM2_PUBLIC_KEY_LEN];
    p.copy_from_slice(pqcrypto_traits::sign::PublicKey::as_bytes(&pk));
    let mut q = [0u8; DILITHIUM2_SECRET_KEY_LEN];
    q.copy_from_slice(pqcrypto_traits::sign::SecretKey::as_bytes(&sk));
    (p, q)
}

/// A fresh post-quantum (Dilithium2) key pair: public key, then secret key.
pub fn keypair_postq() -> (keys: (PQPublicKey, PQSecretKey))
{
    let (p, q) = dilithium2_keypair();
    (PQPublicKey { bytes: p }, PQSecretKey { bytes: q })
}

/// The Ed25519 signature of `message` under `ed25519_sk`.
pub fn sign_ed25519(ed25519_sk: &[u8; 32], message: &[u8]) -> (sig: [u8; ED25519_SIG_LEN])
    ensures
        sig@ == ed25519_signature(ed25519_sk@, message@),
{
    ed25519_sign(ed25519_sk, message)
}

/// The Ed25519 signature of `message` followed by its Dilithium2 signature.
pub fn sign_hybrid(ed25519_sk: &[u8; 32], pq_sk: &PQSecretKey, message: &[u8]) -> (sig: [u8; HYBRID_SIG_LEN])
    ensures
        sig@.subrange(0, 64) == ed25519_signature(ed25519_sk@, message@),
        sig@.subrange(64, HYBRID_SIG_LEN as int) == dilithium2_signature(pq_sk@, message@),
{
    let ed_sig = ed25519_sign(ed25519_sk, message);
    let pq_sig = dilithium2_sign(message, &pq_sk.bytes);
    let mut out = [0u8; HYBRID_SIG_LEN];
    let mut i: usize = 0;
    while i < 64
        invariant
            0 <= i <= 64,
            forall|j: int| 0 <= j < i ==> out@[j] == ed_sig@[j],
        decreases 64 - i,
    {
        out[i] = ed_sig[i];
        i = i + 1;
    }
    while i < HYBRID_SIG_LEN
        invariant
            64 <= i <= HYBRID_SIG_LEN,
            forall|j: int| 0 <= j < 64 ==> out@[j] == ed_sig@[j],
            forall|j: int| 64 <= j < i ==> out@[j] == pq_sig@[j - 64],
        decreases HYBRID_SIG_LEN - i,
    {
        out[i] = pq_sig[i - 64];
        i = i + 1;
    }
    assert(out@.subrange(0, 64) =~= ed_sig@);
    assert(out@.subrange(64, HYBRID_SIG_LEN as int) =~= pq_sig@);
    out
}

/// Whether `signature` holds a valid Ed25519 signature of `message` under
/// `ed25519_pk` in its first 64 bytes and a valid Dilithium2 signature under
/// `pq_pk` in the rest. The Dilithium2 check runs only after the Ed25519 one
/// has passed.
pub fn verify_hybrid(ed25519_pk: &[u8; 32], pq_pk: &PQPublicKey, message: &[u8], signature: &[u8; HYBRID_SIG_LEN]) -> (ok: bool)
    ensures
        ok == (ed25519_verifies(ed25519_pk@, message@, signature@.subrange(0, 64)) && dilithium2_verifies(
            pq_pk@,
            message@,
            signature@.subrange(64, HYBRID_SIG_LEN as int),
        )),
{
    let whole: &[u8] = signature.as_slice();
    let ed_part = &whole[0..64];
    if !ed25519_verify(ed25519_pk, message, ed_part) {
        return false;
    }
    let pq_part = &whole[64..HYBRID_SIG_LEN];
    dilithium2_verify(pq_part, message, &pq_pk.bytes)
}

} // verus!
