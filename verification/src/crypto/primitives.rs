//! The calls into outside cryptography, randomness and clock sources.
//!
//! Each function here is trusted: Verus takes its contract as given. Where the
//! result is a deterministic function of the arguments that takes pages to
//! state (a hash, a cipher), it is named by an uninterpreted spec function.
use vstd::prelude::*;
use rand::RngCore;
use aes_gcm::aead::{Aead, KeyInit};
use sha2::Digest;

verus! {

/// Fills a 32-byte array from `rand::rngs::OsRng` (`RngCore::fill_bytes`).
/// The bytes are random; nothing is promised about them.
#[verifier::external_body]
pub(crate) fn os_random_key() -> (key: [u8; 32]) {
    let mut key = [0u8; 32];
    rand::rngs::OsRng.fill_bytes(&mut key);
    key
}

/// Seconds since the Unix epoch from `std::time::SystemTime::now`; a clock set
/// before the epoch reads as 0. Nothing is promised about the value.
#[verifier::external_body]
pub(crate) fn unix_time_now() -> (secs: u64) {
    match std::time::SystemTime::now().duration_since(std::time::UNIX_EPOCH) {
        Ok(d) => d.as_secs(),
        Err(_) => 0,
    }
}

} // verus!

verus! {

/// Fills a 12-byte nonce from `rand::rngs::OsRng` (`RngCore::fill_bytes`).
/// The bytes are random; nothing is promised about them.
#[verifier::external_body]
pub(crate) fn os_random_nonce() -> (nonce: [u8; 12]) {
    let mut nonce = [0u8; 12];
    rand::rngs::OsRng.fill_bytes(&mut nonce);
    nonce
}

/// Largest plaintext that AES-GCM encrypts (2^36 bytes).
pub const AES_GCM_MAX_PLAINTEXT: u64 = 0x10_0000_0000;

/// The AES-256-GCM ciphertext (with its 16-byte tag appended) of `plaintext`
/// under `key` and `nonce`, with empty associated data.
pub uninterp spec fn aes256_gcm_encryption(key: Seq<u8>, nonce: Seq<u8>, plaintext: Seq<u8>) -> Seq<u8>;

/// The AES-256-GCM decryption of `ciphertext` under `key` and `nonce` with
/// empty associated data; `None` where authentication fails.
pub uninterp spec fn aes256_gcm_decryption(key: Seq<u8>, nonce: Seq<u8>, ciphertext: Seq<u8>) -> Option<Seq<u8>>;

/// `aes_gcm::Aes256Gcm::encrypt` (through `aead::Aead`). It fails only above
/// 2^36 bytes of plaintext, which `requires` leaves out; the ciphertext is the
/// plaintext's length plus the 16-byte tag.
#[verifier::external_body]
pub(crate) fn aes256_gcm_encrypt(key: &[u8; 32], nonce: &[u8; 12], plaintext: &[u8]) -> (ciphertext: Vec<u8>)
    requires
        plaintext@.len() <= AES_GCM_MAX_PLAINTEXT,
    ensures
        ciphertext@ == aes256_gcm_encryption(key@, nonce@, plaintext@),
        ciphertext@.len() == plaintext@.len() + 16,
{
    let cipher = aes_gcm::Aes256Gcm::new(key.into());
    cipher.encrypt(aes_gcm::Nonce::from_slice(nonce), plaintext).unwrap()
}

/// `aes_gcm::Aes256Gcm::decrypt` (through `aead::Aead`): `None` where it fails.
/// As for every AEAD, a ciphertext made by encryption under the same key and
/// nonce decrypts to the plaintext that was encrypted.
#[verifier::external_body]
pub(crate) fn aes256_gcm_decrypt(key: &[u8; 32], nonce: &[u8; 12], ciphertext: &[u8]) -> (plaintext: Option<Vec<u8>>)
    ensures
        plaintext matches Some(p) ==> aes256_gcm_decryption(key@, nonce@, ciphertext@) == Some(p@),
        plaintext is None ==> aes256_gcm_decryption(key@, nonce@, ciphertext@) is None,
        plaintext is None ==> forall|m: Seq<u8>|
            m.len() <= AES_GCM_MAX_PLAINTEXT ==> ciphertext@ != aes256_gcm_encryption(key@, nonce@, m),
        plaintext matches Some(p) ==> forall|m: Seq<u8>|
            ciphertext@ == aes256_gcm_encryption(key@, nonce@, m) ==> p@ == m,
{
    let cipher = aes_gcm::Aes256Gcm::new(key.into());
    match cipher.decrypt(aes_gcm::Nonce::from_slice(nonce), ciphertext) {
        Ok(p) => Some(p),
        Err(_) => None,
    }
}

} // verus!

verus! {

/// The SHA-256 digest of `data`.
pub uninterp spec fn sha256(data: Seq<u8>) -> Seq<u8>;

/// `sha2::Sha256::digest`: the SHA-256 digest of `data`. Feeding a hasher
/// several pieces with `update` gives the digest of their concatenation.
#[verifier::external_body]
pub(crate) fn sha256_digest(data: &[u8]) -> (digest: [u8; 32])
    ensures
        digest@ == sha256(data@),
{
    sha2::Sha256::digest(data).into()
}

} // verus!

verus! {

/// The HMAC-SHA-256 tag of `data` under `key`.
pub uninterp spec fn hmac_sha256(key: Seq<u8>, data: Seq<u8>) -> Seq<u8>;

/// `hmac::Hmac::<sha2::Sha256>` keyed with `key`, fed `data`, finalized.
/// Any key length is accepted by HMAC, so keying cannot fail.
#[verifier::external_body]
pub(crate) fn hmac_sha256_tag(key: &[u8; 32], data: &[u8]) -> (tag: [u8; 32])
    ensures
        tag@ == hmac_sha256(key@, data@),
{
    let mut mac = <hmac::Hmac<sha2::Sha256> as hmac::Mac>::new_from_slice(key).unwrap();
    hmac::Mac::update(&mut mac, data);
    hmac::Mac::finalize(mac).into_bytes().into()
}

/// `n` bytes from `rand::thread_rng()` (`RngCore::fill_bytes`). The bytes are
/// random; only their number is promised.
#[verifier::external_body]
pub(crate) fn thread_random_bytes(n: usize) -> (bytes: Vec<u8>)
    ensures
        bytes@.len() == n,
{
    let mut bytes = vec![0u8; n];
    rand::thread_rng().fill_bytes(&mut bytes);
    bytes
}

} // verus!

verus! {

/// The first 32 bytes of HKDF-SHA-256 output for this salt, input key
/// material and info.
pub uninterp spec fn hkdf_sha256(salt: Seq<u8>, ikm: Seq<u8>, info: Seq<u8>) -> Seq<u8>;

/// `hkdf::Hkdf::<sha2::Sha256>::new(Some(salt), ikm)` then `expand(info, ..)`
/// into 32 bytes. Expansion fails only above 255 * 32 bytes of output, so it
/// cannot fail here.
#[verifier::external_body]
pub(crate) fn hkdf_sha256_32(salt: &[u8], ikm: &[u8], info: &[u8]) -> (okm: [u8; 32])
    ensures
        okm@ == hkdf_sha256(salt@, ikm@, info@),
{
    let mut okm = [0u8; 32];
    hkdf::Hkdf::<sha2::Sha256>::new(Some(salt), ikm).expand(info, &mut okm).unwrap();
    okm
}

/// The AES-128-SIV ciphertext (synthetic IV first) of `plaintext` under the
/// 32-byte `key`, with the empty associated data and `nonce` as the headers.
pub uninterp spec fn aes128_siv_encryption(key: Seq<u8>, nonce: Seq<u8>, plaintext: Seq<u8>) -> Seq<u8>;

/// The AES-128-SIV decryption of `ciphertext` under `key` and `nonce`;
/// `None` where authentication fails.
pub uninterp spec fn aes128_siv_decryption(key: Seq<u8>, nonce: Seq<u8>, ciphertext: Seq<u8>) -> Option<Seq<u8>>;

/// `aes_siv::Aes128SivAead::encrypt` (through `aead::Aead`). With its two
/// headers (the empty associated data and the nonce) it cannot fail; the
/// ciphertext is the plaintext's length plus the 16-byte synthetic IV.
#[verifier::external_body]
pub(crate) fn aes128_siv_encrypt(key: &[u8; 32], nonce: &[u8; 16], plaintext: &[u8]) -> (ciphertext: Vec<u8>)
    ensures
        ciphertext@ == aes128_siv_encryption(key@, nonce@, plaintext@),
        ciphertext@.len() == plaintext@.len() + 16,
{
    let cipher = aes_siv::Aes128SivAead::new(key.into());
    cipher.encrypt(aes_siv::Nonce::from_slice(nonce), plaintext).unwrap()
}

/// `aes_siv::Aes128SivAead::decrypt` (through `aead::Aead`): `None` where it
/// fails. As for every AEAD, a ciphertext made by encryption under the same
/// key and nonce decrypts to the plaintext that was encrypted.
#[verifier::external_body]
pub(crate) fn aes128_siv_decrypt(key: &[u8; 32], nonce: &[u8; 16], ciphertext: &[u8]) -> (plaintext: Option<Vec<u8>>)
    ensures
        plaintext matches Some(p) ==> aes128_siv_decryption(key@, nonce@, ciphertext@) == Some(p@),
        plaintext is None ==> aes128_siv_decryption(key@, nonce@, ciphertext@) is None,
        plaintext is None ==> forall|m: Seq<u8>| ciphertext@ != aes128_siv_encryption(key@, nonce@, m),
        plaintext matches Some(p) ==> forall|m: Seq<u8>|
            ciphertext@ == aes128_siv_encryption(key@, nonce@, m) ==> p@ == m,
{
    let cipher = aes_siv::Aes128SivAead::new(key.into());
    match cipher.decrypt(aes_siv::Nonce::from_slice(nonce), ciphertext) {
        Ok(p) => Some(p),
        Err(_) => None,
    }
}

/// The lowercase hexadecimal digit of `n` (0 to 15).
pub open spec fn hex_digit(n: int) -> char {
    if n < 10 {
        (48 + n) as char
    } else {
        (87 + n) as char
    }
}

/// The value of a hexadecimal digit of either case.
pub open spec fn hex_value(c: char) -> Option<int> {
    let u = c as u32;
    if 48 <= u <= 57 {
        Some(u - 48)
    } else if 97 <= u <= 102 {
        Some(u - 87)
    } else if 65 <= u <= 70 {
        Some(u - 55)
    } else {
        None
    }
}

/// Two lowercase hexadecimal digits per byte, high digit first.
pub open spec fn hex_string(bytes: Seq<u8>) -> Seq<char> {
    Seq::new(
        2 * bytes.len(),
        |j: int|
            if j % 2 == 0 {
                hex_digit(bytes[j / 2] as int / 16)
            } else {
                hex_digit(bytes[j / 2] as int % 16)
            },
    )
}

/// The bytes that a hexadecimal string stands for: `None` for an odd number
/// of digits or a character that is no hexadecimal digit.
pub open spec fn hex_decoding(s: Seq<char>) -> Option<Seq<u8>> {
    if s.len() % 2 != 0 {
        None
    } else if exists|j: int| 0 <= j < s.len() && #[trigger] hex_value(s[j]) is None {
        None
    } else {
        Some(Seq::new((s.len() / 2) as nat, |i: int| (hex_value(s[2 * i])->0 * 16 + hex_value(s[2 * i + 1])->0) as u8))
    }
}

/// `hex::encode`: two lowercase hexadecimal digits per byte.
#[verifier::external_body]
pub(crate) fn hex_encode(bytes: &[u8]) -> (s: String)
    ensures
        s@ == hex_string(bytes@),
{
    hex::encode(bytes)
}

/// `hex::decode`: `None` for an odd length or a character that is no
/// hexadecimal digit (either case is accepted).
#[verifier::external_body]
pub(crate) fn hex_decode(s: &str) -> (bytes: Option<Vec<u8>>)
    ensures
        bytes matches Some(b) ==> hex_decoding(s@) == Some(b@),
        bytes is None ==> hex_decoding(s@) is None,
{
    hex::decode(s).ok()
}

/// `zeroize::Zeroize::zeroize` on a byte array: every byte becomes 0.
#[verifier::external_body]
pub(crate) fn wipe_bytes<const N: usize>(bytes: &mut [u8; N])
    ensures
        final(bytes)@ == Seq::new(N as nat, |i: int| 0u8),
{
    zeroize::Zeroize::zeroize(bytes);
}

/// `zeroize::Zeroize::zeroize` on a `String`: its bytes are overwritten with
/// zeros and it is left empty.
#[verifier::external_body]
pub(crate) fn wipe_string(s: &mut String)
    ensures
        final(s)@ == Seq::<char>::empty(),
{
    zeroize::Zeroize::zeroize(s);
}

} // verus!

verus! {

/// A hexadecimal encoding holds only the digits `0`-`9` and `a`-`f`.
pub proof fn lemma_hex_string_digits(bytes: Seq<u8>)
    ensures
        forall|j: int|
            0 <= j < hex_string(bytes).len() ==> (48 <= #[trigger] hex_string(bytes)[j] as u32 <= 57 || 97
                <= hex_string(bytes)[j] as u32 <= 102),
{
    let s = hex_string(bytes);
    assert forall|n: int| 0 <= n < 16 implies 48 <= #[trigger] hex_digit(n) as u32 <= 57 || 97 <= hex_digit(n) as u32
        <= 102 by {
        if n < 10 {
            assert(((48 + n) as char) as u32 == 48 + n);
        } else {
            assert(((87 + n) as char) as u32 == 87 + n);
        }
    }
    assert forall|j: int| 0 <= j < s.len() implies (48 <= #[trigger] s[j] as u32 <= 57 || 97 <= s[j] as u32 <= 102) by {
        if j % 2 == 0 {
            assert(s[j] == hex_digit(bytes[j / 2] as int / 16));
        } else {
            assert(s[j] == hex_digit(bytes[j / 2] as int % 16));
        }
    }
}

/// Decoding a hexadecimal encoding gives the bytes back.
pub proof fn lemma_hex_roundtrip(bytes: Seq<u8>)
    ensures
        hex_decoding(hex_string(bytes)) == Some(bytes),
{
    let s = hex_string(bytes);
    assert forall|n: int| 0 <= n < 16 implies #[trigger] hex_value(hex_digit(n)) == Some(n) by {
        if n < 10 {
            assert(((48 + n) as char) as u32 == 48 + n);
        } else {
            assert(((87 + n) as char) as u32 == 87 + n);
        }
    }
    assert forall|j: int| 0 <= j < s.len() implies #[trigger] hex_value(s[j]) is Some by {
        if j % 2 == 0 {
            assert(hex_value(hex_digit(bytes[j / 2] as int / 16)) is Some);
        } else {
            assert(hex_value(hex_digit(bytes[j / 2] as int % 16)) is Some);
        }
    }
    let d = hex_decoding(s)->0;
    assert forall|i: int| 0 <= i < bytes.len() implies d[i] == bytes[i] by {
        assert((2 * i) % 2 == 0 && (2 * i) / 2 == i);
        assert((2 * i + 1) % 2 == 1 && (2 * i + 1) / 2 == i);
        assert(hex_value(s[2 * i]) == Some(bytes[i] as int / 16));
        assert(hex_value(s[2 * i + 1]) == Some(bytes[i] as int % 16));
    }
    assert(d =~= bytes);
}

} // verus!
