//! Symmetric encryption: AES-256-GCM under a fresh random nonce for data, and
//! deterministic AES-SIV, written out in hexadecimal, for file names.
use vstd::prelude::*;
use vstd::utf8::{encode_utf8, decode_utf8, valid_utf8, encode_utf8_valid_utf8, encode_utf8_decode_utf8};
use crate::error::VartaError;
use crate::bytes::fill_from;
use crate::common::generate_random_key;
use crate::sys::string_from_utf8;
use super::primitives::{
    AES_GCM_MAX_PLAINTEXT, aes256_gcm_encryption, aes256_gcm_decryption, aes256_gcm_encrypt, aes256_gcm_decrypt,
    aes128_siv_encryption, aes128_siv_decryption, aes128_siv_encrypt, aes128_siv_decrypt,
    hex_string, hex_decoding, hex_encode, hex_decode, lemma_hex_roundtrip,
};

verus! {

/// The fixed header under which file names are encrypted ("vaultfilename_iv").
pub open spec fn filename_nonce_bytes() -> Seq<u8> {
    seq![118u8, 97, 117, 108, 116, 102, 105, 108, 101, 110, 97, 109, 101, 95, 105, 118]
}

fn filename_nonce() -> (n: [u8; 16])
    ensures
        n@ == filename_nonce_bytes(),
{
    let n: [u8; 16] = [118, 97, 117, 108, 116, 102, 105, 108, 101, 110, 97, 109, 101, 95, 105, 118];
    assert(n@ =~= filename_nonce_bytes());
    n
}

/// The encrypted form of a file name under `key`: the hexadecimal digits of
/// its AES-SIV ciphertext.
pub open spec fn encrypted_filename(key: Seq<u8>, filename: Seq<char>) -> Seq<char> {
    hex_string(aes128_siv_encryption(key, filename_nonce_bytes(), encode_utf8(filename)))
}

/// What decrypting the encrypted file name `hex` under `key` gives: the name,
/// or the failure.
pub open spec fn filename_decryption(key: Seq<u8>, hex: Seq<char>) -> Result<Seq<char>, VartaError> {
    match hex_decoding(hex) {
        None => Err(VartaError::InvalidFilename),
        Some(c) => match aes128_siv_decryption(key, filename_nonce_bytes(), c) {
            None => Err(VartaError::DecryptionFailed),
            Some(p) => if valid_utf8(p) {
                Ok(decode_utf8(p))
            } else {
                Err(VartaError::InvalidFilename)
            },
        },
    }
}

/// Encrypts `plaintext` under `aes_key` with a fresh random 12-byte nonce
/// (the first 12 bytes of a random key). Hands back the nonce and the
/// ciphertext with its tag.
pub fn encrypt(aes_key: &[u8; 32], plaintext: &[u8]) -> (r: (Vec<u8>, Vec<u8>))
    requires
        plaintext@.len() <= AES_GCM_MAX_PLAINTEXT,
    ensures
        r.0@.len() == 12,
        r.1@ == aes256_gcm_encryption(aes_key@, r.0@, plaintext@),
        r.1@.len() == plaintext@.len() + 16,
{
    let nonce_bytes = generate_random_key();
    let mut nonce = [0u8; 12];
    fill_from(&mut nonce, &nonce_bytes, 0);
    let ciphertext = aes256_gcm_encrypt(aes_key, &nonce, plaintext);
    let mut nonce_vec: Vec<u8> = Vec::new();
    crate::bytes::push_slice(&mut nonce_vec, &nonce);
    (nonce_vec, ciphertext)
}

/// Decrypts `ciphertext` under `aes_key` and the 12-byte `nonce`; fails when
/// authentication fails. A ciphertext made by `encrypt` under the same key
/// decrypts to the plaintext.
pub fn decrypt(aes_key: &[u8; 32], nonce: &[u8], ciphertext: &[u8]) -> (r: Result<Vec<u8>, VartaError>)
    requires
        nonce@.len() == 12,
    ensures
        r matches Ok(p) ==> aes256_gcm_decryption(aes_key@, nonce@, ciphertext@) == Some(p@),
        r is Err ==> aes256_gcm_decryption(aes_key@, nonce@, ciphertext@) is None,
        r matches Err(e) ==> e is DecryptionFailed,
        forall|m: Seq<u8>|
            m.len() <= AES_GCM_MAX_PLAINTEXT && ciphertext@ == aes256_gcm_encryption(aes_key@, nonce@, m) ==> (r matches Ok(
                p,
            ) && p@ == m),
{
    let mut n = [0u8; 12];
    fill_from(&mut n, nonce, 0);
    assert(n@ =~= nonce@);
    match aes256_gcm_decrypt(aes_key, &n, ciphertext) {
        Some(p) => Ok(p),
        None => Err(VartaError::DecryptionFailed),
    }
}

/// Encrypts a file name deterministically: AES-SIV under `aes_key` with a
/// fixed header, written out in lowercase hexadecimal.
pub fn encrypt_filename(aes_key: &[u8; 32], filename: &str) -> (r: String)
    ensures
        r@ == encrypted_filename(aes_key@, filename@),
        r@.len() == 2 * (encode_utf8(filename@).len() + 16),
{
    let nonce = filename_nonce();
    let ciphertext = aes128_siv_encrypt(aes_key, &nonce, filename.as_bytes());
    hex_encode(ciphertext.as_slice())
}

/// The file name that `hex_ciphertext` encrypts under `aes_key`. Fails when
/// it is not hexadecimal or the decrypted bytes are not UTF-8
/// (`InvalidFilename`), or when authentication fails (`DecryptionFailed`).
pub fn decrypt_filename(aes_key: &[u8; 32], hex_ciphertext: &str) -> (r: Result<String, VartaError>)
    ensures
        r matches Ok(s) ==> filename_decryption(aes_key@, hex_ciphertext@) == Ok::<Seq<char>, VartaError>(s@),
        r matches Err(e) ==> filename_decryption(aes_key@, hex_ciphertext@) == Err::<Seq<char>, VartaError>(e),
        forall|f: Seq<char>| hex_ciphertext@ == encrypted_filename(aes_key@, f) ==> (r matches Ok(s) && s@ == f),
{
    let ciphertext = match hex_decode(hex_ciphertext) {
        Some(c) => c,
        None => {
            proof {
                assert forall|f: Seq<char>| hex_ciphertext@ != encrypted_filename(aes_key@, f) by {
                    lemma_hex_roundtrip(aes128_siv_encryption(aes_key@, filename_nonce_bytes(), encode_utf8(f)));
                }
            }
            return Err(VartaError::InvalidFilename);
        },
    };
    let nonce = filename_nonce();
    let plaintext = match aes128_siv_decrypt(aes_key, &nonce, ciphertext.as_slice()) {
        Some(p) => p,
        None => {
            proof {
                assert forall|f: Seq<char>| hex_ciphertext@ != encrypted_filename(aes_key@, f) by {
                    lemma_hex_roundtrip(aes128_siv_encryption(aes_key@, filename_nonce_bytes(), encode_utf8(f)));
                }
            }
            return Err(VartaError::DecryptionFailed);
        },
    };
    let ghost pv = plaintext@;
    proof {
        broadcast use {encode_utf8_valid_utf8, encode_utf8_decode_utf8};
        assert forall|f: Seq<char>| hex_ciphertext@ == encrypted_filename(aes_key@, f) implies pv == encode_utf8(f) by {
            lemma_hex_roundtrip(aes128_siv_encryption(aes_key@, filename_nonce_bytes(), encode_utf8(f)));
        }
    }
    match string_from_utf8(plaintext) {
        Some(s) => {
            proof {
                broadcast use encode_utf8_decode_utf8;
            }
            Ok(s)
        },
        None => {
            proof {
                broadcast use encode_utf8_valid_utf8;
            }
            Err(VartaError::InvalidFilename)
        },
    }
}

} // verus!
