//! Agents: a named identity with a 32-byte master key. The master key is kept
//! on disk sealed under a key derived from the agent's password and the
//! device id; the vault keys of the agent are derived from the master key.
use vstd::prelude::*;
use vstd::string::StringExecFns;
use vstd::utf8::encode_utf8;
use crate::error::VartaError;
use crate::bytes::fill_from;
use crate::config::{
    ROOT_SECRETS_FOLDER, MASTER_KEY_FILE, AGENT_META_KEY_CONTEXT, AGENT_MASTER_KEY_SALT, AGENT_MASTER_KEY_CONTEXT,
    AGENT_VAULT_KEY_SALT_PREFIX, AGENT_VAULT_KEY_CONTEXT, generate_random_key,
};
use crate::record::{bytes_field, field_at, lemma_field_at_bytes_field};
use crate::crypto::primitives::{
    AES_GCM_MAX_PLAINTEXT, aes256_gcm_encryption, aes256_gcm_decryption, sha256, sha256_digest, hkdf_sha256,
    hkdf_sha256_32, hex_string, hex_encode, wipe_string,
};
use crate::crypto::symm_enc;
use crate::device::{Device, device_id_of};

verus! {

broadcast use vstd::seq_lib::group_seq_properties;

/// The borsh encoding of a pair of byte vectors: each as a length-prefixed field.
pub open spec fn pair_bytes(a: Seq<u8>, b: Seq<u8>) -> Seq<u8> {
    bytes_field(a) + bytes_field(b)
}

/// The pair of byte vectors that borsh decodes from `d`: `None` where a field
/// runs past the end or bytes are left over.
pub open spec fn parse_pair(d: Seq<u8>) -> Option<(Seq<u8>, Seq<u8>)> {
    match field_at(d, 0) {
        None => None,
        Some((a, p1)) => match field_at(d, p1) {
            None => None,
            Some((b, p2)) => if p2 == d.len() {
                Some((a, b))
            } else {
                None
            },
        },
    }
}

/// `borsh::to_vec` on a pair of byte vectors: each vector as a 32-bit
/// little-endian length followed by its bytes. It fails only where a length
/// does not fit 32 bits, which `requires` leaves out.
#[verifier::external_body]
fn borsh_encode_pair(a: &Vec<u8>, b: &Vec<u8>) -> (bytes: Vec<u8>)
    requires
        a@.len() <= u32::MAX,
        b@.len() <= u32::MAX,
    ensures
        bytes@ == pair_bytes(a@, b@),
{
    borsh::to_vec(&(a, b)).unwrap()
}

/// `borsh::from_slice` into a pair of byte vectors: the two length-prefixed
/// vectors, and no byte left over.
#[verifier::external_body]
fn borsh_decode_pair(bytes: &[u8]) -> (r: Option<(Vec<u8>, Vec<u8>)>)
    ensures
        r matches Some((a, b)) ==> parse_pair(bytes@) == Some((a@, b@)),
        r is None ==> parse_pair(bytes@) is None,
{
    borsh::from_slice::<(Vec<u8>, Vec<u8>)>(bytes).ok()
}

/// Whether `record` seals `master_key` under `meta_key`: it is the borsh pair
/// of a 12-byte nonce and the AES-256-GCM ciphertext of the key under the
/// meta key and that nonce.
pub open spec fn seals_master_key(record: Seq<u8>, meta_key: Seq<u8>, master_key: Seq<u8>) -> bool {
    exists|nonce: Seq<u8>, ct: Seq<u8>|
        nonce.len() == 12 && ct.len() <= u32::MAX && ct == aes256_gcm_encryption(meta_key, nonce, master_key)
            && record == pair_bytes(nonce, ct)
}

/// What opening the master key record `record` with `meta_key` gives: the
/// master key, or the failure.
pub open spec fn master_key_opening(record: Seq<u8>, meta_key: Seq<u8>) -> Result<Seq<u8>, VartaError> {
    match parse_pair(record) {
        None => Err(VartaError::InvalidMasterKeyRecord),
        Some((nonce, ct)) => if nonce.len() != 12 {
            Err(VartaError::InvalidMasterKeyRecord)
        } else {
            match aes256_gcm_decryption(meta_key, nonce, ct) {
                None => Err(VartaError::DecryptionFailed),
                Some(mk) => if mk.len() == 32 {
                    Ok(mk)
                } else {
                    Err(VartaError::InvalidMasterKeyLength)
                },
            }
        }
    }
}

/// An agent's id: the SHA-256 digest of its name's UTF-8 bytes.
pub open spec fn agent_id_of(name: Seq<char>) -> Seq<u8> {
    sha256(encode_utf8(name))
}

/// The folder of the agent with id `id`: the secrets folder, then the id in hexadecimal.
pub open spec fn agent_path(id: Seq<u8>) -> Seq<char> {
    ROOT_SECRETS_FOLDER@ + seq!['/'] + hex_string(id)
}

/// The key that seals an agent's master key: HKDF-SHA-256 over the password,
/// salted with the device id.
pub open spec fn agent_meta_key(password: Seq<char>, device_id: Seq<u8>) -> Seq<u8> {
    hkdf_sha256(device_id, encode_utf8(password), encode_utf8(AGENT_META_KEY_CONTEXT@))
}

/// The master key derived from a derivation key.
pub open spec fn derived_master_key(derivation_key: Seq<u8>) -> Seq<u8> {
    hkdf_sha256(derivation_key, encode_utf8(AGENT_MASTER_KEY_SALT@), encode_utf8(AGENT_MASTER_KEY_CONTEXT@))
}

/// The key of the agent's vault named `vault_name`.
pub open spec fn agent_vault_key(master_key: Seq<u8>, vault_name: Seq<char>) -> Seq<u8> {
    hkdf_sha256(
        encode_utf8(AGENT_VAULT_KEY_SALT_PREFIX@ + vault_name),
        master_key,
        encode_utf8(AGENT_VAULT_KEY_CONTEXT@),
    )
}

pub struct Agent {
    name: String,
    master_key: [u8; 32],
}

impl Agent {
    pub closed spec fn spec_name(&self) -> Seq<char> {
        self.name@
    }

    pub closed spec fn spec_master_key(&self) -> Seq<u8> {
        self.master_key@
    }

    /// An agent's master key is 32 bytes.
    pub proof fn lemma_master_key_len(&self)
        ensures
            self.spec_master_key().len() == 32,
    {
    }

    /// A new agent: its master key is derived from `derivation_key` where one
    /// is given, else random. Hands back the agent and the record that seals
    /// its master key under the key derived from `password` (empty where
    /// none is given) and the device id, to be stored at
    /// `master_key_path(id)`.
    pub fn new(name: String, password: Option<String>, derivation_key: Option<[u8; 32]>, device: &Device) -> (r: (
        Self,
        Vec<u8>,
    ))
        ensures
            r.0.spec_name() == name@,
            r.0.spec_master_key().len() == 32,
            derivation_key matches Some(k) ==> r.0.spec_master_key() == derived_master_key(k@),
            seals_master_key(
                r.1@,
                agent_meta_key(
                    match password {
                        Some(p) => p@,
                        None => Seq::<char>::empty(),
                    },
                    device_id_of(device.spec_key()),
                ),
                r.0.spec_master_key(),
            ),
    {
        let master_key = match derivation_key {
            Some(key) => Agent::derive_master_key(key),
            None => generate_random_key(),
        };
        let agent = Agent { name, master_key };
        let pwd = match password {
            Some(p) => p,
            None => String::new(),
        };
        let meta_key = Agent::derive_meta_key(pwd, device);
        let record = agent.save(meta_key);
        (agent, record)
    }

    /// The record that seals the master key under `meta_key`: a fresh nonce
    /// and the ciphertext, as a borsh pair.
    pub fn save(&self, meta_key: [u8; 32]) -> (record: Vec<u8>)
        ensures
            seals_master_key(record@, meta_key@, self.spec_master_key()),
    {
        let (nonce, cypher) = symm_enc::encrypt(&meta_key, &self.master_key);
        borsh_encode_pair(&nonce, &cypher)
    }

    /// Logs in: derives the meta key from `password` and the device id, and
    /// opens the agent's master key record (which the caller has found: an
    /// agent without one is not found).
    pub fn login(name: String, password: String, device: &Device, record: Vec<u8>) -> (r: Result<Self, VartaError>)
        ensures
            r matches Ok(a) ==> a.spec_name() == name@,
            r matches Ok(a) ==> a.spec_master_key().len() == 32,
            forall|mk: Seq<u8>|
                mk.len() == 32 && seals_master_key(record@, agent_meta_key(password@, device_id_of(device.spec_key())), mk)
                    ==> (r matches Ok(a) && a.spec_master_key() == mk),
    {
        let ghost pw = password@;
        let meta_key = Agent::derive_meta_key(password, device);
        Agent::load(name, meta_key, record)
    }

    /// Opens the agent's master key record with `meta_key`. Fails where the
    /// record is no borsh pair with a 12-byte nonce,
    /// authentication fails, or the key is not 32 bytes.
    pub fn load(name: String, meta_key: [u8; 32], record: Vec<u8>) -> (r: Result<Self, VartaError>)
        ensures
            r matches Ok(a) ==> a.spec_name() == name@,
            r matches Ok(a) ==> a.spec_master_key().len() == 32,
            r matches Ok(a) ==> master_key_opening(record@, meta_key@) == Ok::<Seq<u8>, VartaError>(a.spec_master_key()),
            r matches Err(e) ==> master_key_opening(record@, meta_key@) == Err::<Seq<u8>, VartaError>(e),
            forall|mk: Seq<u8>|
                mk.len() == 32 && seals_master_key(record@, meta_key@, mk) ==> (r matches Ok(a) && a.spec_master_key()
                    == mk),
    {
        proof {
            assert forall|mk: Seq<u8>| mk.len() == 32 && seals_master_key(record@, meta_key@, mk) implies exists|nonce: Seq<u8>|
                nonce.len() == 12 && #[trigger] parse_pair(record@) == Some((nonce, aes256_gcm_encryption(meta_key@, nonce, mk))) by {
                let (nonce, ct) = choose|nonce: Seq<u8>, ct: Seq<u8>|
                    nonce.len() == 12 && ct.len() <= u32::MAX && ct == aes256_gcm_encryption(meta_key@, nonce, mk) && record@
                        == pair_bytes(nonce, ct);
                lemma_pair_roundtrip(record@, nonce, ct);
            }
        }
        let (nonce, cypher) = match borsh_decode_pair(record.as_slice()) {
            Some(p) => p,
            None => return Err(VartaError::InvalidMasterKeyRecord),
        };
        if nonce.len() != 12 {
            return Err(VartaError::InvalidMasterKeyRecord);
        }
        let master_key_vec = match symm_enc::decrypt(&meta_key, nonce.as_slice(), cypher.as_slice()) {
            Ok(p) => p,
            Err(e) => return Err(e),
        };
        if master_key_vec.len() != 32 {
            return Err(VartaError::InvalidMasterKeyLength);
        }
        let mut master_key = [0u8; 32];
        fill_from(&mut master_key, master_key_vec.as_slice(), 0);
        assert(master_key@ =~= master_key_vec@);
        Ok(Agent { name, master_key })
    }

    /// Overwrites the master key with zeros (before the agent is dropped).
    pub fn wipe(&mut self)
        ensures
            final(self).spec_name() == old(self).spec_name(),
            final(self).spec_master_key() == Seq::new(32, |i: int| 0u8),
    {
        crate::crypto::primitives::wipe_bytes(&mut self.master_key);
    }

    pub fn get_name(&self) -> (n: &str)
        ensures
            n@ == self.spec_name(),
    {
        self.name.as_str()
    }

    /// The agent's id: the digest of its name.
    pub fn id(&self) -> (id: [u8; 32])
        ensures
            id@ == agent_id_of(self.spec_name()),
    {
        Agent::get_id(self.name.as_str())
    }

    /// The key that seals the master key: HKDF-SHA-256 over the password,
    /// salted with the device id. The password is wiped afterwards.
    pub fn derive_meta_key(password: String, device: &Device) -> (key: [u8; 32])
        ensures
            key@ == agent_meta_key(password@, device_id_of(device.spec_key())),
    {
        let mut password = password;
        let device_id = device.get_id();
        let enc_key = hkdf_sha256_32(&device_id, password.as_str().as_bytes(), AGENT_META_KEY_CONTEXT.as_bytes());
        wipe_string(&mut password);
        enc_key
    }

    /// A master key derived from a derivation key.
    pub fn derive_master_key(derivation_key: [u8; 32]) -> (key: [u8; 32])
        ensures
            key@ == derived_master_key(derivation_key@),
    {
        hkdf_sha256_32(&derivation_key, AGENT_MASTER_KEY_SALT.as_bytes(), AGENT_MASTER_KEY_CONTEXT.as_bytes())
    }

    /// The key of the agent's vault named `vault_name`.
    pub fn derive_vault_key(&self, vault_name: &str) -> (key: [u8; 32])
        ensures
            key@ == agent_vault_key(self.spec_master_key(), vault_name@),
    {
        let mut salt = String::from_str(AGENT_VAULT_KEY_SALT_PREFIX);
        salt.append(vault_name);
        hkdf_sha256_32(salt.as_str().as_bytes(), &self.master_key, AGENT_VAULT_KEY_CONTEXT.as_bytes())
    }

    /// The id of the agent named `name`: the SHA-256 digest of the name.
    pub fn get_id(name: &str) -> (id: [u8; 32])
        ensures
            id@ == agent_id_of(name@),
    {
        sha256_digest(name.as_bytes())
    }

    /// The folder of the agent with id `id`.
    pub fn get_path(id: [u8; 32]) -> (p: String)
        ensures
            p@ == agent_path(id@),
    {
        let mut p = String::from_str(ROOT_SECRETS_FOLDER);
        p.append("/");
        let h = hex_encode(&id);
        p.append(h.as_str());
        proof {
            reveal_strlit("/");
        }
        p
    }

    /// Where the agent with id `id` keeps its master key record.
    pub fn master_key_path(id: [u8; 32]) -> (p: String)
        ensures
            p@ == agent_path(id@) + seq!['/'] + MASTER_KEY_FILE@,
    {
        let mut p = Agent::get_path(id);
        p.append("/");
        p.append(MASTER_KEY_FILE);
        proof {
            reveal_strlit("/");
        }
        p
    }
}

/// A pair written by `pair_bytes` is read back by `parse_pair`.
pub proof fn lemma_pair_roundtrip(d: Seq<u8>, a: Seq<u8>, b: Seq<u8>)
    requires
        a.len() <= u32::MAX,
        b.len() <= u32::MAX,
        d == pair_bytes(a, b),
    ensures
        parse_pair(d) == Some((a, b)),
{
    vstd::bytes::lemma_auto_spec_u32_to_from_le_bytes();
    let la: int = a.len() as int;
    let lb: int = b.len() as int;
    assert(d.subrange(0, 4 + la) =~= bytes_field(a));
    lemma_field_at_bytes_field(d, 0, a);
    assert(d.subrange(4 + la, 8 + la + lb) =~= bytes_field(b));
    lemma_field_at_bytes_field(d, 4 + la, b);
}

} // verus!
