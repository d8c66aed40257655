//! The device key's life in the platform's secure storage: what to do with
//! what a load brought back.
use vstd::prelude::*;
use crate::crypto::primitives::thread_random_bytes;

verus! {

/// Account under which the vault keeps its entries in secure storage.
pub const KEYCHAIN_ACCOUNT: &'static str = "varta";

/// The key to use, given what loading it from secure storage brought back,
/// and whether it is new and must be stored: a stored key is used as it is;
/// where none is stored, a fresh random 32-byte key is made.
pub fn key_or_new(loaded: Option<Vec<u8>>) -> (r: (Vec<u8>, bool))
    ensures
        loaded matches Some(k) ==> r.0@ == k@ && !r.1,
        loaded is None ==> r.0@.len() == 32 && r.1,
{
    match loaded {
        Some(k) => (k, false),
        None => (thread_random_bytes(32), true),
    }
}

} // verus!
