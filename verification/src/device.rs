//! The device: the machine-bound Ed25519 key that signs the operations made
//! here, and the device id derived from it.
use vstd::prelude::*;
use crate::config::VERSION;
use crate::error::VartaError;
use crate::crypto::primitives::{sha256, sha256_digest};
use crate::crypto::sign::{ED25519_SIG_LEN, ed25519_signature, sign_ed25519};

verus! {

/// Name under which the device key is kept in the platform's secure storage.
pub const DEVICE_KEY_NAME: &'static str = "varta_device_key_v1";

/// The id of the device whose key is `key`: the key's SHA-256 digest.
pub open spec fn device_id_of(key: Seq<u8>) -> Seq<u8> {
    sha256(key)
}

pub struct Device {
    version: u8,
    device_id: [u8; 32],
    private_key: [u8; 32],
}

impl Device {
    #[verifier::type_invariant]
    spec fn id_matches_key(self) -> bool {
        self.device_id@ == device_id_of(self.private_key@)
    }

    /// The device's signing key.
    pub closed spec fn spec_key(&self) -> Seq<u8> {
        self.private_key@
    }

    /// The device id, as held.
    pub closed spec fn spec_id(&self) -> [u8; 32] {
        self.device_id
    }

    /// The device bound to `device_key`.
    pub fn new(device_key: [u8; 32]) -> (d: Self)
        ensures
            d.spec_key() == device_key@,
            d.spec_id()@ == device_id_of(device_key@),
    {
        let device_id = Self::compute_id(&device_key);
        Device { version: VERSION, device_id, private_key: device_key }
    }

    /// The device bound to a key read from secure storage; fails unless the
    /// key is 32 bytes long.
    pub fn from_key(device_key: &[u8]) -> (r: Result<Self, VartaError>)
        ensures
            r is Ok <==> device_key@.len() == 32,
            r matches Ok(d) ==> d.spec_key() == device_key@,
            r matches Err(e) ==> e is InvalidDeviceKeyLength,
    {
        if device_key.len() != 32 {
            return Err(VartaError::InvalidDeviceKeyLength);
        }
        let mut key = [0u8; 32];
        crate::bytes::fill_from(&mut key, device_key, 0);
        assert(key@ =~= device_key@);
        Ok(Device::new(key))
    }

    fn compute_id(device_key: &[u8]) -> (id: [u8; 32])
        ensures
            id@ == device_id_of(device_key@),
    {
        sha256_digest(device_key)
    }

    /// The device id: the SHA-256 digest of the device key.
    pub fn get_id(&self) -> (id: [u8; 32])
        ensures
            id == self.spec_id(),
            id@ == device_id_of(self.spec_key()),
    {
        proof {
            use_type_invariant(self);
        }
        self.device_id
    }

    /// The Ed25519 signature of `plaintext` under the device key.
    pub fn sign(&self, plaintext: &[u8]) -> (sig: [u8; ED25519_SIG_LEN])
        ensures
            sig@ == ed25519_signature(self.spec_key(), plaintext@),
    {
        sign_ed25519(&self.private_key, plaintext)
    }
}

} // verus!
