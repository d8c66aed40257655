use varta::config::generate_random_key;
use varta::crypto::sign::{keypair_postq, sign_ed25519, sign_hybrid, verify_hybrid, ED25519_SIG_LEN, HYBRID_SIG_LEN};
use varta::crypto::symm_enc;
use varta::error::VartaError;

#[test]
fn test_symmetric_encryption_decryption() {
    let key = generate_random_key();
    let plaintext = b"Secret password: hunter2";

    let (nonce, ciphertext) = symm_enc::encrypt(&key, plaintext);
    let decrypted = symm_enc::decrypt(&key, &nonce, &ciphertext).unwrap();

    assert_eq!(plaintext.to_vec(), decrypted);
}

#[test]
fn test_symmetric_encryption_different_nonces() {
    let key = generate_random_key();
    let plaintext = b"Same message";

    let (nonce1, ciphertext1) = symm_enc::encrypt(&key, plaintext);
    let (nonce2, ciphertext2) = symm_enc::encrypt(&key, plaintext);

    assert_ne!(nonce1, nonce2, "Nonces should be different");
    assert_ne!(ciphertext1, ciphertext2, "Ciphertexts should be different with different nonces");
}

#[test]
fn test_filename_encryption_deterministic() {
    let key = generate_random_key();
    let filename = "my_secret_file.txt";

    let encrypted1 = symm_enc::encrypt_filename(&key, filename);
    let encrypted2 = symm_enc::encrypt_filename(&key, filename);

    assert_eq!(encrypted1, encrypted2, "Filename encryption should be deterministic");

    let decrypted = symm_enc::decrypt_filename(&key, &encrypted1).unwrap();
    assert_eq!(filename, decrypted);
}

#[test]
fn test_ed25519_signature() {
    let secret_key = generate_random_key();
    let message = b"Important message to sign";

    let signature = sign_ed25519(&secret_key, message);

    assert_eq!(signature.len(), ED25519_SIG_LEN);
}

#[test]
fn test_hybrid_signature_verification() {
    let ed25519_sk = generate_random_key();
    let (pq_pk, pq_sk) = keypair_postq();
    let message = b"Quantum-resistant signed message";

    let signature = sign_hybrid(&ed25519_sk, &pq_sk, message);

    let ed25519_pk = {
        let sk = ed25519_dalek::SigningKey::from_bytes(&ed25519_sk);
        sk.verifying_key().to_bytes()
    };

    let is_valid = verify_hybrid(&ed25519_pk, &pq_pk, message, &signature);
    assert!(is_valid, "Hybrid signature should be valid");
}

#[test]
fn test_hybrid_signature_invalid_message() {
    let ed25519_sk = generate_random_key();
    let (pq_pk, pq_sk) = keypair_postq();
    let message = b"Original message";
    let tampered_message = b"Tampered message";

    let signature = sign_hybrid(&ed25519_sk, &pq_sk, message);

    let ed25519_pk = {
        let sk = ed25519_dalek::SigningKey::from_bytes(&ed25519_sk);
        sk.verifying_key().to_bytes()
    };

    let is_valid = verify_hybrid(&ed25519_pk, &pq_pk, tampered_message, &signature);
    assert!(!is_valid, "Signature should be invalid for tampered message");
}

#[test]
fn test_random_key_generation() {
    let key1 = generate_random_key();
    let key2 = generate_random_key();

    assert_ne!(key1, key2, "Random keys should be different");
    assert_eq!(key1.len(), 32);
    assert_eq!(key2.len(), 32);
}

#[test]
fn hybrid_signature_starts_with_the_ed25519_signature() {
    let ed25519_sk = [3u8; 32];
    let (_pq_pk, pq_sk) = keypair_postq();
    let message = b"layout";
    let hybrid = sign_hybrid(&ed25519_sk, &pq_sk, message);
    let ed = sign_ed25519(&ed25519_sk, message);
    assert_eq!(hybrid.len(), HYBRID_SIG_LEN);
    assert_eq!(&hybrid[..64], &ed[..]);
}

#[test]
fn hybrid_signature_fails_under_another_dilithium_key() {
    let ed25519_sk = [4u8; 32];
    let (_pk1, sk1) = keypair_postq();
    let (pk2, _sk2) = keypair_postq();
    let message = b"which key";
    let signature = sign_hybrid(&ed25519_sk, &sk1, message);
    let ed25519_pk = ed25519_dalek::SigningKey::from_bytes(&ed25519_sk).verifying_key().to_bytes();
    assert!(!verify_hybrid(&ed25519_pk, &pk2, message, &signature));
}

#[test]
fn ed25519_signature_matches_the_reference_implementation() {
    let sk = [9u8; 32];
    let message = b"reference";
    let expected = ed25519_dalek::Signer::sign(&ed25519_dalek::SigningKey::from_bytes(&sk), message).to_bytes();
    assert_eq!(sign_ed25519(&sk, message), expected);
}

#[test]
fn decryption_with_another_key_fails() {
    let key = [1u8; 32];
    let other = [2u8; 32];
    let (nonce, ciphertext) = symm_enc::encrypt(&key, b"payload");
    assert_eq!(ciphertext.len(), b"payload".len() + 16);
    assert!(matches!(symm_enc::decrypt(&other, &nonce, &ciphertext), Err(VartaError::DecryptionFailed)));
}

#[test]
fn encrypted_filename_is_lowercase_hex_of_name_length_plus_tag() {
    let key = [5u8; 32];
    let enc = symm_enc::encrypt_filename(&key, "abc");
    assert_eq!(enc.len(), 2 * (3 + 16));
    assert!(enc.chars().all(|c| c.is_ascii_hexdigit() && !c.is_ascii_uppercase()));
    assert_ne!(enc, symm_enc::encrypt_filename(&[6u8; 32], "abc"));
}

#[test]
fn decrypt_filename_refuses_non_hex_and_foreign_names() {
    let key = [5u8; 32];
    assert!(matches!(symm_enc::decrypt_filename(&key, "zz"), Err(VartaError::InvalidFilename)));
    assert!(matches!(symm_enc::decrypt_filename(&key, "abc"), Err(VartaError::InvalidFilename)));
    let enc = symm_enc::encrypt_filename(&[6u8; 32], "abc");
    assert!(matches!(symm_enc::decrypt_filename(&key, &enc), Err(VartaError::DecryptionFailed)));
    let upper = symm_enc::encrypt_filename(&key, "name").to_uppercase();
    assert_eq!(symm_enc::decrypt_filename(&key, &upper).unwrap(), "name");
}

#[test]
fn hybrid_signature_is_deterministic() {
    let ed25519_sk = [5u8; 32];
    let (_pq_pk, pq_sk) = keypair_postq();
    let a = sign_hybrid(&ed25519_sk, &pq_sk, b"same message");
    let b = sign_hybrid(&ed25519_sk, &pq_sk, b"same message");
    let c = sign_hybrid(&ed25519_sk, &pq_sk, b"other message");
    assert_eq!(a[..], b[..]);
    assert_ne!(a[64..], c[64..]);
}
