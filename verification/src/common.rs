//! Shared constants and the key generator.
use vstd::prelude::*;
use crate::crypto::primitives::os_random_key;

verus! {

pub const VERSION: u8 = 1;

pub const ROOT_SECRETS_FOLDER: &'static str = "secrets";

/// A fresh 32-byte key from the operating system's random source.
pub fn generate_random_key() -> (key: [u8; 32]) {
    os_random_key()
}

} // verus!
