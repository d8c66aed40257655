//! Vaults: a named set of objects of one agent, kept in an object storage
//! file, with an audit log of signed operations beside it. The vault's
//! identity (version, agent id, master key, state digest) is sealed under a
//! meta key derived from the agent's vault key and stored in the header of
//! both files.
use vstd::prelude::*;
use vstd::string::StringExecFns;
use vstd::utf8::encode_utf8;
use crate::error::VartaError;
use crate::bytes::{fill_from, push_slice};
use crate::config::{
    VERSION, VAULT_FILE_NAME, VAULT_AES_KEY_SALT, VAULT_META_KEY_SALT, OP_INITIAL, OP_CREATE, OP_UPDATE, OP_DELETE,
    OBJECT_FILE_EXT, OPERATION_FILE_EXT, ROOT_SECRETS_FOLDER, generate_random_key,
};
use crate::operation::{Operation, OperationView, op_bytes, op_sealed, op_well_formed, op_fits, op_record_len, lemma_op_bytes_len};
use crate::vault_object::{VaultObject, ObjectView, object_bytes, object_fits, parse_object, digest_of, lemma_object_roundtrip};
use crate::crypto::primitives::{
    aes256_gcm_encryption, aes256_gcm_decryption, sha256, sha256_digest, hkdf_sha256, hkdf_sha256_32, hex_string,
    hex_encode, unix_time_now, lemma_hex_string_digits,
};
use crate::crypto::symm_enc;
use crate::agent::{Agent, agent_path};
use crate::device::Device;
use crate::sys::{path_with_extension, portable_path};
use crate::storage::file::FileOp;
use crate::storage::obs::{ObjectStorage, ObjectPlainIter};
use crate::storage::ops::OperationStorage;
use crate::storage::storage::{Storage, METADATA_SIZE, three_pass_overwrite};
use crate::clock::{clock_get, clock_set};
use crate::storage::components::block::{BLOCK_SIZE, MAX_PLAINTEXT_SIZE, seals_padded};

verus! {

broadcast use vstd::seq_lib::group_seq_properties;

/// Size of the vault record: version, agent id, master key, state digest.
pub const SERIALIZED_SIZE: usize = 97;

/// The key of the placeholder object that a deletion's operation names.
pub const DELETED_MARKER_KEY: &'static str = "deleted";

/// The vault record: the version byte, then agent id, master key and state digest.
pub open spec fn vault_record(version: u8, agent_id: Seq<u8>, master_key: Seq<u8>, digest: Seq<u8>) -> Seq<u8> {
    seq![version] + agent_id + master_key + digest
}

/// The fields of a vault record: `None` for fewer than 97 bytes; bytes past
/// the 97th are ignored.
pub open spec fn record_fields(data: Seq<u8>) -> Option<(u8, Seq<u8>, Seq<u8>, Seq<u8>)> {
    if data.len() < SERIALIZED_SIZE {
        None
    } else {
        Some((data[0], data.subrange(1, 33), data.subrange(33, 65), data.subrange(65, 97)))
    }
}

/// Whether `ciphertext` and `tag` are the AES-256-GCM encryption of `record`
/// under `meta_key` and `nonce`, split after the 97th byte.
pub open spec fn seals_record(meta_key: Seq<u8>, nonce: Seq<u8>, ciphertext: Seq<u8>, tag: Seq<u8>, record: Seq<u8>) -> bool {
    ciphertext + tag == aes256_gcm_encryption(meta_key, nonce, record)
}

/// The meta key of the vault named `name`, derived from the vault key.
pub open spec fn vault_meta_key(derivation_key: Seq<u8>, name: Seq<char>) -> Seq<u8> {
    hkdf_sha256(encode_utf8(VAULT_META_KEY_SALT@), derivation_key, encode_utf8(name))
}

/// The bytes the vault's state digest is taken over: version, agent id, the
/// name's UTF-8 bytes, master key, the current state digest, then the digest
/// of the last operation where there is one.
pub open spec fn state_input(
    version: u8,
    agent_id: Seq<u8>,
    name: Seq<char>,
    master_key: Seq<u8>,
    digest: Seq<u8>,
    last_op: Option<OperationView>,
) -> Seq<u8> {
    seq![version] + agent_id + encode_utf8(name) + master_key + digest + match last_op {
        Some(op) => op.op_hash,
        None => Seq::empty(),
    }
}

/// The folder name of a vault: the first 16 bytes of the digest of the agent
/// id and the vault name, in hexadecimal.
pub open spec fn vault_dir_name(agent_id: Seq<u8>, name: Seq<char>) -> Seq<char> {
    hex_string(sha256(agent_id + encode_utf8(name)).subrange(0, 16))
}

/// The folder of a vault, inside its agent's folder.
pub open spec fn vault_path(agent_id: Seq<u8>, name: Seq<char>) -> Seq<char> {
    agent_path(agent_id) + seq!['/'] + vault_dir_name(agent_id, name)
}

/// The common stem of a vault's two files.
pub open spec fn vault_file_stem(agent_id: Seq<u8>, name: Seq<char>) -> Seq<char> {
    vault_path(agent_id, name) + seq!['/'] + VAULT_FILE_NAME@
}

/// Every character of a vault's file stem is a letter, a digit or a slash,
/// and it starts with the secrets folder's name: a portable path.
pub proof fn lemma_vault_file_stem_portable(agent_id: Seq<u8>, name: Seq<char>)
    ensures
        portable_path(vault_file_stem(agent_id, name)),
{
    reveal_strlit("secrets");
    reveal_strlit("varta");
    let h1 = hex_string(agent_id);
    let h2 = vault_dir_name(agent_id, name);
    lemma_hex_string_digits(agent_id);
    lemma_hex_string_digits(sha256(agent_id + encode_utf8(name)).subrange(0, 16));
    let p = vault_file_stem(agent_id, name);
    let a = ROOT_SECRETS_FOLDER@ + seq!['/'];
    let b = a + h1 + seq!['/'];
    let c = b + h2 + seq!['/'];
    assert(p == c + VAULT_FILE_NAME@);
    assert forall|i: int| 0 <= i < p.len() implies p[i] != '\\' && p[i] != ':' by {
        if i < a.len() {
            assert(p[i] == a[i]);
        } else if i < a.len() + h1.len() {
            assert(p[i] == h1[i - a.len()]);
        } else if i < b.len() {
            assert(p[i] == '/');
        } else if i < b.len() + h2.len() {
            assert(p[i] == h2[i - b.len()]);
        } else if i < c.len() {
            assert(p[i] == '/');
        } else {
            assert(p[i] == VAULT_FILE_NAME@[i - c.len()]);
        }
    }
    assert(p[0] == 's');
}

pub struct Vault {
    version: u8,
    agent_id: [u8; 32],
    master_key: [u8; 32],
    vault_digest: [u8; 32],
    name: String,
    meta_key: [u8; 32],
    storage: ObjectStorage,
    audit: OperationStorage,
    last_op: Option<Operation>,
}

impl Vault {
    /// A vault's agent id, master key, meta key and state digest are 32 bytes
    /// each.
    pub proof fn lemma_key_lens(&self)
        ensures
            self.spec_agent_id().len() == 32,
            self.spec_master_key().len() == 32,
            self.spec_meta_key().len() == 32,
            self.spec_digest().len() == 32,
    {
    }

    pub closed spec fn spec_version(&self) -> u8 {
        self.version
    }

    pub closed spec fn spec_agent_id(&self) -> Seq<u8> {
        self.agent_id@
    }

    pub closed spec fn spec_master_key(&self) -> Seq<u8> {
        self.master_key@
    }

    pub closed spec fn spec_meta_key(&self) -> Seq<u8> {
        self.meta_key@
    }

    /// The state digest the vault carries.
    pub closed spec fn spec_digest(&self) -> Seq<u8> {
        self.vault_digest@
    }

    pub closed spec fn spec_name(&self) -> Seq<char> {
        self.name@
    }

    pub closed spec fn spec_storage(&self) -> ObjectStorage {
        self.storage
    }

    pub closed spec fn spec_audit(&self) -> OperationStorage {
        self.audit
    }

    pub closed spec fn spec_last_op(&self) -> Option<OperationView> {
        match self.last_op {
            Some(op) => Some(op@),
            None => None,
        }
    }

    /// The vault's record as it stands.
    pub open spec fn spec_record(&self) -> Seq<u8> {
        vault_record(self.spec_version(), self.spec_agent_id(), self.spec_master_key(), self.spec_digest())
    }

    /// The state digest of the vault as it stands.
    pub open spec fn spec_state_hash(&self) -> Seq<u8> {
        sha256(
            state_input(
                self.spec_version(),
                self.spec_agent_id(),
                self.spec_name(),
                self.spec_master_key(),
                self.spec_digest(),
                self.spec_last_op(),
            ),
        )
    }

    /// Both files' headers hold the vault record sealed under the meta key.
    pub open spec fn headers_seal_record(&self) -> bool {
        let oh = self.spec_storage().spec_storage().spec_header();
        let ah = self.spec_audit().spec_storage().spec_header();
        &&& seals_record(
            self.spec_meta_key(),
            oh.spec_metadata_nonce(),
            oh.spec_metadata_ciphertext(),
            oh.spec_metadata_tag(),
            self.spec_record(),
        )
        &&& seals_record(
            self.spec_meta_key(),
            ah.spec_metadata_nonce(),
            ah.spec_metadata_ciphertext(),
            ah.spec_metadata_tag(),
            self.spec_record(),
        )
    }

    /// The object storage holds the record of `o` for the object `key`.
    pub open spec fn holds_object(&self, key: Seq<char>, o: ObjectView) -> bool {
        self.spec_storage().holds(key, object_bytes(o), self.spec_master_key())
    }

    /// Whether an object is stored under `key`.
    pub open spec fn spec_has_object(&self, key: Seq<char>) -> bool {
        self.spec_storage().spec_storage().spec_index().dom().contains(self.spec_storage().object_key(key))
    }

    /// Both files begin with their header and index block, and both headers
    /// hold the vault record sealed under the meta key: files from which
    /// `open` reads this vault back.
    pub open spec fn saved(&self) -> bool {
        &&& self.spec_storage().spec_storage().metadata_in_file()
        &&& self.spec_audit().spec_storage().metadata_in_file()
        &&& self.headers_seal_record()
    }

    /// The indexes of both files fit into their index blocks.
    pub open spec fn indexes_fit(&self) -> bool {
        &&& Storage::index_fits(self.spec_storage().spec_storage().spec_index())
        &&& Storage::index_fits(self.spec_audit().spec_storage().spec_index())
    }

    /// Room in the object file for one more block under the object `key`: the
    /// file's length stays within 64 bits, and the index with the new entry
    /// fits into its block.
    pub open spec fn room_for_object(&self, key: Seq<char>) -> bool {
        let st = self.spec_storage().spec_storage();
        &&& st.contents().len() + BLOCK_SIZE <= u64::MAX
        &&& Storage::index_fits(
            st.spec_index().insert(self.spec_storage().object_key(key), (st.contents().len() as u64, BLOCK_SIZE as u64)),
        )
    }

    /// The length of the record of the next operation, of type `op_type` made
    /// by the device `dev` on an object whose key takes `key_len` bytes.
    pub open spec fn next_record_len(&self, dev: [u8; 32], op_type: Seq<char>, key_len: int) -> int {
        let clock = self.spec_last_op()->0.vector_clock;
        op_record_len(
            encode_utf8(self.spec_name()).len() as int,
            clock_set(clock, dev, (clock_get(clock, dev) + 1) as u64).len() as int,
            encode_utf8(op_type).len() as int,
            key_len,
        )
    }

    /// What logging that next operation needs: a last operation whose counter
    /// for `dev` can still grow, a record that fits a block, room in the log
    /// for one more block, and a log index that fits its block.
    pub open spec fn can_record(&self, dev: [u8; 32], op_type: Seq<char>, key_len: int) -> bool {
        &&& self.spec_last_op() is Some
        &&& clock_get(self.spec_last_op()->0.vector_clock, dev) < u64::MAX
        &&& self.next_record_len(dev, op_type, key_len) <= MAX_PLAINTEXT_SIZE
        &&& self.spec_audit().spec_storage().contents().len() + BLOCK_SIZE <= u64::MAX
        &&& Storage::index_fits(self.spec_audit().spec_storage().spec_index())
    }

    /// Both files hold at least their metadata area.
    pub open spec fn sized(&self) -> bool {
        &&& self.spec_storage().sized()
        &&& self.spec_audit().spec_storage().contents().len() >= METADATA_SIZE
    }

    /// The record of this vault: version, agent id, master key and state digest.
    pub fn to_bytes(&self) -> (r: [u8; SERIALIZED_SIZE])
        ensures
            r@ == self.spec_record(),
    {
        let mut buffer = [0u8; SERIALIZED_SIZE];
        buffer[0] = self.version;
        let mut i: usize = 0;
        while i < 32
            invariant
                0 <= i <= 32,
                buffer@[0] == self.version,
                forall|j: int| 0 <= j < i ==> buffer@[1 + j] == self.agent_id@[j],
                forall|j: int| 0 <= j < i ==> buffer@[33 + j] == self.master_key@[j],
                forall|j: int| 0 <= j < i ==> buffer@[65 + j] == self.vault_digest@[j],
            decreases 32 - i,
        {
            buffer[1 + i] = self.agent_id[i];
            buffer[33 + i] = self.master_key[i];
            buffer[65 + i] = self.vault_digest[i];
            i = i + 1;
        }
        assert(buffer@ =~= self.spec_record());
        buffer
    }

    /// The fields of a vault record: fails when `data` is shorter than 97
    /// bytes; bytes past the 97th are ignored.
    pub fn from_bytes(data: &[u8]) -> (r: Result<(u8, [u8; 32], [u8; 32], [u8; 32]), VartaError>)
        ensures
            data@.len() < SERIALIZED_SIZE ==> r == Err::<(u8, [u8; 32], [u8; 32], [u8; 32]), VartaError>(
                VartaError::InvalidDataSize(data@.len() as usize),
            ),
            r matches Ok((v, a, m, d)) ==> record_fields(data@) == Some((v, a@, m@, d@)),
            data@.len() >= SERIALIZED_SIZE ==> r is Ok,
    {
        if data.len() < SERIALIZED_SIZE {
            return Err(VartaError::InvalidDataSize(data.len()));
        }
        let version = data[0];
        let mut agent_id = [0u8; 32];
        fill_from(&mut agent_id, data, 1);
        let mut master_key = [0u8; 32];
        fill_from(&mut master_key, data, 33);
        let mut vault_digest = [0u8; 32];
        fill_from(&mut vault_digest, data, 65);
        Ok((version, agent_id, master_key, vault_digest))
    }

    /// Seals the vault record under the meta key: the nonce, the first 97
    /// bytes of the ciphertext, and the 16-byte tag.
    pub fn encrypt_for_header(&self) -> (r: Result<([u8; 12], [u8; 97], [u8; 16]), VartaError>)
        ensures
            r matches Ok((n, c, t)) ==> seals_record(self.spec_meta_key(), n@, c@, t@, self.spec_record()),
            r is Ok,
    {
        let plaintext = self.to_bytes();
        let (nonce, ciphertext) = symm_enc::encrypt(&self.meta_key, &plaintext);
        if ciphertext.len() < 16 {
            return Err(VartaError::InvalidCiphertextLength);
        }
        let mut tag = [0u8; 16];
        fill_from(&mut tag, ciphertext.as_slice(), 97);
        let mut ciphertext_array = [0u8; 97];
        fill_from(&mut ciphertext_array, ciphertext.as_slice(), 0);
        let mut nonce_array = [0u8; 12];
        fill_from(&mut nonce_array, nonce.as_slice(), 0);
        assert(ciphertext_array@ + tag@ =~= ciphertext@);
        assert(nonce_array@ =~= nonce@);
        Ok((nonce_array, ciphertext_array, tag))
    }

    /// Opens a sealed vault record: decrypts the ciphertext and the tag under
    /// `meta_key` and reads the record's fields. A record sealed by
    /// `encrypt_for_header` under the same meta key gives its fields back.
    pub fn decrypt_from_header(nonce: &[u8; 12], ciphertext: &[u8], tag: &[u8; 16], meta_key: &[u8; 32]) -> (r: Result<
        (u8, [u8; 32], [u8; 32], [u8; 32]),
        VartaError,
    >)
        ensures
            aes256_gcm_decryption(meta_key@, nonce@, ciphertext@ + tag@) is None ==> r matches Err(
                VartaError::DecryptionFailed,
            ),
            aes256_gcm_decryption(meta_key@, nonce@, ciphertext@ + tag@) matches Some(p) ==> (p.len()
                < SERIALIZED_SIZE ==> r matches Err(VartaError::InvalidDataSize(_))),
            r matches Ok((v, a, m, d)) ==> aes256_gcm_decryption(meta_key@, nonce@, ciphertext@ + tag@) matches Some(p)
                && record_fields(p) == Some((v, a@, m@, d@)),
            forall|version: u8, agent_id: Seq<u8>, master_key: Seq<u8>, digest: Seq<u8>|
                agent_id.len() == 32 && master_key.len() == 32 && digest.len() == 32 && #[trigger] seals_record(
                    meta_key@,
                    nonce@,
                    ciphertext@,
                    tag@,
                    vault_record(version, agent_id, master_key, digest),
                ) ==> (r matches Ok((v, a, m, d)) && v == version && a@ == agent_id && m@ == master_key && d@
                    == digest),
    {
        let mut full: Vec<u8> = Vec::new();
        push_slice(&mut full, ciphertext);
        push_slice(&mut full, tag);
        let plaintext = match symm_enc::decrypt(meta_key, nonce, full.as_slice()) {
            Ok(p) => p,
            Err(e) => return Err(e),
        };
        proof {
            assert forall|version: u8, agent_id: Seq<u8>, master_key: Seq<u8>, digest: Seq<u8>|
                agent_id.len() == 32 && master_key.len() == 32 && digest.len() == 32 && #[trigger] seals_record(
                    meta_key@,
                    nonce@,
                    ciphertext@,
                    tag@,
                    vault_record(version, agent_id, master_key, digest),
                ) implies record_fields(plaintext@) == Some((version, agent_id, master_key, digest)) by {
                let rec = vault_record(version, agent_id, master_key, digest);
                assert(plaintext@ == rec);
                assert(rec.subrange(1, 33) =~= agent_id);
                assert(rec.subrange(33, 65) =~= master_key);
                assert(rec.subrange(65, 97) =~= digest);
            }
        }
        Self::from_bytes(plaintext.as_slice())
    }

    /// A new vault named `name` for the agent `agent_id`, with a fresh random
    /// master key and a meta key derived from `derivation_key`. Its two files
    /// are created in memory (see `take_pending`); the log starts with the
    /// initial operation made by `device`, and both headers hold the sealed
    /// vault record.
    pub fn new(name: String, agent_id: [u8; 32], derivation_key: &[u8; 32], device: &Device) -> (r: Result<Self, VartaError>)
        ensures
            r is Ok <==> op_record_len(encode_utf8(name@).len() as int, 0, encode_utf8(OP_INITIAL@).len() as int, 0)
                <= MAX_PLAINTEXT_SIZE,
            r matches Ok(v) ==> {
                &&& v.spec_name() == name@
                &&& v.spec_digest() == sha256(
                    state_input(
                        VERSION,
                        agent_id@,
                        name@,
                        v.spec_master_key(),
                        Seq::new(32, |i: int| 0u8),
                        v.spec_last_op(),
                    ),
                )
                &&& v.spec_storage().spec_storage().spec_index() == Map::<[u8; 32], (u64, u64)>::empty()
                &&& v.spec_audit().spec_storage().spec_index() == Map::<[u8; 32], (u64, u64)>::empty()
                &&& v.spec_agent_id() == agent_id@
                &&& v.spec_version() == VERSION
                &&& v.spec_meta_key() == vault_meta_key(derivation_key@, name@)
                &&& v.spec_last_op() is Some
                &&& op_sealed(v.spec_last_op()->0, device.spec_key())
                &&& v.spec_last_op()->0.device_clock == 0
                &&& v.spec_last_op()->0.vault_name == name@
                &&& v.spec_last_op()->0.agent_id == agent_id@
                &&& v.spec_audit().last_holds(op_bytes(v.spec_last_op()->0), v.spec_master_key())
                &&& op_fits(v.spec_last_op()->0)
                &&& op_well_formed(v.spec_last_op()->0)
                &&& v.spec_storage().spec_storage().spec_path() == path_with_extension(
                    vault_file_stem(agent_id@, name@),
                    OBJECT_FILE_EXT@,
                )
                &&& v.spec_audit().spec_storage().spec_path() == OperationStorage::log_path(
                    vault_file_stem(agent_id@, name@),
                )
                &&& v.headers_seal_record()
                &&& v.sized()
                &&& v.saved()
            },
    {
        let master_key = generate_random_key();
        let meta_key = Vault::derive_meta_key(derivation_key, name.as_str());
        let vault_file_path = Vault::file_path(agent_id, name.as_str());
        proof {
            lemma_vault_file_stem_portable(agent_id@, name@);
        }
        let storage = ObjectStorage::new(vault_file_path.as_str());
        let mut audit = OperationStorage::new(vault_file_path.as_str());
        let op = Operation::initial(agent_id, name.as_str(), device);
        proof {
            lemma_op_bytes_len(op@);
            Storage::lemma_index_fits(Map::<[u8; 32], (u64, u64)>::empty());
        }
        let op_record = match op.to_bytes() {
            Ok(b) => b,
            Err(e) => return Err(e),
        };
        match audit.append_operation(op_record.as_slice(), &master_key) {
            Ok(_) => {},
            Err(e) => return Err(e),
        }
        let mut vault = Vault {
            version: VERSION,
            name,
            agent_id,
            master_key,
            storage,
            audit,
            vault_digest: [0u8; 32],
            meta_key,
            last_op: Some(op),
        };
        proof {
            assert(vault.spec_digest() =~= Seq::new(32, |i: int| 0u8));
        }
        vault.vault_digest = vault.state_hash();
        match vault.save() {
            Ok(()) => {},
            Err(e) => return Err(e),
        }
        Ok(vault)
    }

    /// Stores the sealed vault record in the header of both files.
    pub fn save(&mut self) -> (r: Result<(), VartaError>)
        ensures
            final(self).spec_name() == old(self).spec_name(),
            final(self).spec_agent_id() == old(self).spec_agent_id(),
            final(self).spec_master_key() == old(self).spec_master_key(),
            final(self).spec_meta_key() == old(self).spec_meta_key(),
            final(self).spec_digest() == old(self).spec_digest(),
            final(self).spec_version() == old(self).spec_version(),
            final(self).spec_last_op() == old(self).spec_last_op(),
            final(self).spec_storage().spec_storage().spec_path() == old(self).spec_storage().spec_storage().spec_path(),
            final(self).spec_audit().spec_storage().spec_path() == old(self).spec_audit().spec_storage().spec_path(),
            final(self).spec_storage().spec_storage().spec_index() == old(self).spec_storage().spec_storage().spec_index(),
            final(self).spec_audit().spec_storage().spec_index() == old(self).spec_audit().spec_storage().spec_index(),
            r is Ok <==> old(self).indexes_fit(),
            r is Ok ==> final(self).headers_seal_record(),
            r is Ok && old(self).sized() ==> final(self).sized() && final(self).saved(),
            r is Ok && old(self).sized() ==> forall|key: Seq<char>, o: ObjectView|
                #[trigger] old(self).holds_object(key, o) ==> final(self).holds_object(key, o),
            r is Ok && old(self).spec_audit().spec_storage().contents().len() >= METADATA_SIZE + BLOCK_SIZE
                ==> forall|data: Seq<u8>|
                #[trigger] old(self).spec_audit().last_holds(data, old(self).spec_master_key()) ==> final(self).spec_audit().last_holds(data, old(self).spec_master_key()),
            old(self).spec_storage().spec_storage().pending().is_prefix_of(
                final(self).spec_storage().spec_storage().pending(),
            ),
    {
        let (nonce_array, ciphertext_only, tag) = match self.encrypt_for_header() {
            Ok(t) => t,
            Err(e) => return Err(e),
        };
        match self.storage.set_vault_metadata(nonce_array, ciphertext_only, tag) {
            Ok(()) => {},
            Err(e) => return Err(e),
        }
        match self.audit.set_vault_metadata(nonce_array, ciphertext_only, tag) {
            Ok(()) => {},
            Err(e) => return Err(e),
        }
        proof {
            assert forall|key: Seq<char>, o: ObjectView| #[trigger] old(self).holds_object(key, o) && old(self).sized()
                implies self.holds_object(key, o) by {
                assert(old(self).spec_storage().holds(key, object_bytes(o), old(self).spec_master_key()));
            }
        }
        Ok(())
    }

    /// Opens the vault named `name` of the agent `agent_id` from the bytes of
    /// its object file and its log (which the caller has found: a vault
    /// without them is not found): reads the sealed record from the object file's header with the meta
    /// key derived from `derivation_key`, then the last operation of the log.
    pub fn open(
        name: String,
        agent_id: [u8; 32],
        derivation_key: &[u8; 32],
        object_file: Vec<u8>,
        log_file: Vec<u8>,
    ) -> (r: Result<Vault, VartaError>)
        ensures
            forall|w: Vault| #[trigger] reopens(w, name@, derivation_key@, object_file@, log_file@) ==> r is Ok,
            r matches Ok(v) ==> {
                let oh = v.spec_storage().spec_storage().spec_header();
                &&& v.spec_name() == name@
                &&& v.spec_meta_key() == vault_meta_key(derivation_key@, name@)
                &&& v.spec_storage().spec_storage().contents() == object_file@
                &&& v.spec_audit().spec_storage().contents() == log_file@
                &&& v.spec_storage().spec_storage().spec_path() == path_with_extension(
                    vault_file_stem(agent_id@, name@),
                    OBJECT_FILE_EXT@,
                )
                &&& v.spec_audit().spec_storage().spec_path() == OperationStorage::log_path(
                    vault_file_stem(agent_id@, name@),
                )
                &&& v.sized()
                &&& aes256_gcm_decryption(
                    v.spec_meta_key(),
                    oh.spec_metadata_nonce(),
                    oh.spec_metadata_ciphertext() + oh.spec_metadata_tag(),
                ) matches Some(p) && record_fields(p) == Some(
                    (v.spec_version(), v.spec_agent_id(), v.spec_master_key(), v.spec_digest()),
                )
                &&& forall|version: u8, aid: Seq<u8>, mk: Seq<u8>, digest: Seq<u8>|
                    aid.len() == 32 && mk.len() == 32 && digest.len() == 32 && #[trigger] seals_record(
                        v.spec_meta_key(),
                        oh.spec_metadata_nonce(),
                        oh.spec_metadata_ciphertext(),
                        oh.spec_metadata_tag(),
                        vault_record(version, aid, mk, digest),
                    ) ==> v.spec_version() == version && v.spec_agent_id() == aid && v.spec_master_key() == mk
                        && v.spec_digest() == digest
                &&& forall|data: Seq<u8>|
                    #[trigger] v.spec_audit().last_holds(data, v.spec_master_key()) && parse_operation_some(data)
                        ==> v.spec_last_op() == crate::operation::parse_operation(data)
            },
            forall|w: Vault|
                #[trigger] w.saved() && object_file@ == w.spec_storage().spec_storage().contents()
                    && w.spec_meta_key() == vault_meta_key(derivation_key@, name@) ==> (r matches Ok(v) ==> v.spec_version()
                    == w.spec_version() && v.spec_agent_id() == w.spec_agent_id() && v.spec_master_key()
                    == w.spec_master_key() && v.spec_digest() == w.spec_digest()
                    && v.spec_storage().spec_storage().spec_index() == w.spec_storage().spec_storage().spec_index()
                    && (forall|k: Seq<char>, o: ObjectView| #[trigger] w.holds_object(k, o) ==> v.holds_object(k, o))),
            forall|w: Vault|
                #[trigger] w.saved() && object_file@ == w.spec_storage().spec_storage().contents()
                    && log_file@ == w.spec_audit().spec_storage().contents() && w.spec_meta_key()
                    == vault_meta_key(derivation_key@, name@) && w.spec_last_op() is Some && op_fits(w.spec_last_op()->0)
                    && op_well_formed(w.spec_last_op()->0) && w.spec_audit().last_holds(
                    op_bytes(w.spec_last_op()->0),
                    w.spec_master_key(),
                ) ==> (r matches Ok(v) ==> v.spec_last_op() == w.spec_last_op()),
    {
        let ghost object_view = object_file@;
        let ghost log_view = log_file@;
        let meta_key = Vault::derive_meta_key(derivation_key, name.as_str());
        let object_bytes = object_file;
        let log_bytes = log_file;
        let vault_file_path = Vault::file_path(agent_id, name.as_str());
        proof {
            lemma_vault_file_stem_portable(agent_id@, name@);
        }
        let storage = match ObjectStorage::open(vault_file_path.as_str(), object_bytes) {
            Ok(s) => s,
            Err(e) => {
                proof {
                    assert forall|w: Vault| !#[trigger] reopens(w, name@, derivation_key@, object_view, log_view) by {
                        if reopens(w, name@, derivation_key@, object_view, log_view) {
                            assert(w.spec_storage().spec_storage().metadata_in_file());
                        }
                    }
                }
                return Err(e);
            },
        };
        let audit = match OperationStorage::open(vault_file_path.as_str(), log_bytes) {
            Ok(a) => a,
            Err(e) => {
                proof {
                    assert forall|w: Vault| !#[trigger] reopens(w, name@, derivation_key@, object_view, log_view) by {
                        if reopens(w, name@, derivation_key@, object_view, log_view) {
                            assert(w.spec_audit().spec_storage().metadata_in_file());
                        }
                    }
                }
                return Err(e);
            },
        };
        proof {
            assert forall|w: Vault| #[trigger] reopens(w, name@, derivation_key@, object_view, log_view) implies {
                &&& storage.spec_storage().spec_header() == w.spec_storage().spec_storage().spec_header()
                &&& audit.spec_storage().spec_header() == w.spec_audit().spec_storage().spec_header()
            } by {
                assert(w.spec_storage().spec_storage().metadata_in_file());
                assert(w.spec_audit().spec_storage().metadata_in_file());
            }
        }
        if !storage.has_vault_metadata() || !audit.has_vault_metadata() {
            return Err(VartaError::VaultMetadataNotFound);
        }
        let (nonce, ciphertext, tag) = storage.get_vault_metadata();
        let (version, agent_id, master_key, vault_digest) = match Vault::decrypt_from_header(
            nonce,
            ciphertext,
            tag,
            &meta_key,
        ) {
            Ok(t) => t,
            Err(e) => {
                proof {
                    assert forall|w: Vault| !#[trigger] reopens(w, name@, derivation_key@, object_view, log_view) by {
                        if reopens(w, name@, derivation_key@, object_view, log_view) {
                            let oh = w.spec_storage().spec_storage().spec_header();
                            assert(seals_record(
                                meta_key@,
                                nonce@,
                                ciphertext@,
                                tag@,
                                vault_record(w.spec_version(), w.spec_agent_id(), w.spec_master_key(), w.spec_digest()),
                            ));
                        }
                    }
                }
                return Err(e);
            },
        };
        let mut vault = Vault {
            version,
            agent_id,
            master_key,
            vault_digest,
            audit,
            name,
            meta_key,
            storage,
            last_op: None,
        };
        let ghost before_read = vault;
        match vault.read_last_op() {
            Ok(()) => {},
            Err(e) => {
                proof {
                    assert forall|w: Vault| !#[trigger] reopens(w, name@, derivation_key@, object_view, log_view) by {
                        if reopens(w, name@, derivation_key@, object_view, log_view) {
                            let oh = w.spec_storage().spec_storage().spec_header();
                            assert(seals_record(
                                meta_key@,
                                nonce@,
                                ciphertext@,
                                tag@,
                                vault_record(w.spec_version(), w.spec_agent_id(), w.spec_master_key(), w.spec_digest()),
                            ));
                            let data = op_bytes(w.spec_last_op()->0);
                            crate::operation::lemma_operation_roundtrip(w.spec_last_op()->0);
                            assert(before_read.spec_audit().spec_storage().contents() == log_view);
                            assert(w.spec_audit().spec_storage().contents() == log_view);
                            assert(before_read.spec_master_key() == w.spec_master_key());
                            assert(before_read.spec_audit().last_holds(data, before_read.spec_master_key()));
                            assert(parse_operation_some(data));
                        }
                    }
                }
                return Err(e);
            },
        }
        proof {
            assert forall|w: Vault|
                #[trigger] w.saved() && w.spec_storage().spec_storage().contents() == object_view && w.spec_meta_key()
                    == vault_meta_key(derivation_key@, name@) implies vault.spec_version() == w.spec_version()
                    && vault.spec_agent_id() == w.spec_agent_id() && vault.spec_master_key() == w.spec_master_key()
                    && vault.spec_digest() == w.spec_digest() by {
                let wst = w.spec_storage().spec_storage();
                assert(wst.metadata_in_file() && wst.contents() == object_view);
                assert(vault.spec_storage().spec_storage().spec_header() == wst.spec_header());
            }
            assert forall|w: Vault|
                #[trigger] w.saved() && w.spec_storage().spec_storage().contents() == object_view
                    && w.spec_audit().spec_storage().contents() == log_view && w.spec_meta_key() == vault_meta_key(
                    derivation_key@,
                    name@,
                ) && w.spec_last_op() is Some && op_fits(w.spec_last_op()->0) && op_well_formed(w.spec_last_op()->0)
                    && w.spec_audit().last_holds(op_bytes(w.spec_last_op()->0), w.spec_master_key()) implies vault.spec_last_op()
                    == w.spec_last_op() by {
                let wst = w.spec_storage().spec_storage();
                assert(wst.metadata_in_file() && wst.contents() == object_view);
                assert(vault.spec_master_key() == w.spec_master_key());
                let data = op_bytes(w.spec_last_op()->0);
                crate::operation::lemma_operation_roundtrip(w.spec_last_op()->0);
                assert(vault.spec_audit().last_holds(data, vault.spec_master_key()));
                assert(parse_operation_some(data));
            }
        }
        Ok(vault)
    }

    /// Reads the last operation of the log, where the log holds one past its
    /// header.
    pub fn read_last_op(&mut self) -> (r: Result<(), VartaError>)
        ensures
            final(self).spec_name() == old(self).spec_name(),
            final(self).spec_agent_id() == old(self).spec_agent_id(),
            final(self).spec_master_key() == old(self).spec_master_key(),
            final(self).spec_meta_key() == old(self).spec_meta_key(),
            final(self).spec_digest() == old(self).spec_digest(),
            final(self).spec_version() == old(self).spec_version(),
            final(self).spec_storage() == old(self).spec_storage(),
            final(self).spec_audit() == old(self).spec_audit(),
            forall|data: Seq<u8>|
                #[trigger] old(self).spec_audit().last_holds(data, old(self).spec_master_key()) && parse_operation_some(
                    data,
                ) ==> (r is Ok && final(self).spec_last_op() == crate::operation::parse_operation(data)),
    {
        let last_op_bytes = match self.audit.read_last_operation(&self.master_key) {
            Ok(b) => b,
            Err(e) => return Err(e),
        };
        if let Some(bytes) = last_op_bytes {
            let last_op = match Operation::from_bytes(bytes.as_slice()) {
                Ok(op) => op,
                Err(e) => return Err(e),
            };
            self.last_op = Some(last_op);
        }
        Ok(())
    }

    /// Overwrites the master key and the meta key with zeros, and wipes the
    /// headers' secrets and the indexes of both files (before the vault is
    /// dropped).
    pub fn wipe(&mut self)
        ensures
            final(self).spec_name() == old(self).spec_name(),
            final(self).spec_master_key() == Seq::new(32, |i: int| 0u8),
            final(self).spec_meta_key() == Seq::new(32, |i: int| 0u8),
            final(self).spec_storage().spec_storage().spec_index() == Map::<[u8; 32], (u64, u64)>::empty(),
            final(self).spec_audit().spec_storage().spec_index() == Map::<[u8; 32], (u64, u64)>::empty(),
            final(self).spec_storage().spec_storage().spec_header().spec_metadata_ciphertext() == Seq::new(
                97,
                |i: int| 0u8,
            ),
            final(self).spec_audit().spec_storage().spec_header().spec_metadata_ciphertext() == Seq::new(
                97,
                |i: int| 0u8,
            ),
    {
        crate::crypto::primitives::wipe_bytes(&mut self.master_key);
        crate::crypto::primitives::wipe_bytes(&mut self.meta_key);
        self.storage.storage_mut().wipe();
        self.audit.storage_mut().wipe();
    }

    pub fn get_name(&self) -> (n: &str)
        ensures
            n@ == self.spec_name(),
    {
        self.name.as_str()
    }

    pub fn get_agent_id(&self) -> (id: [u8; 32])
        ensures
            id@ == self.spec_agent_id(),
    {
        self.agent_id
    }

    /// Whether an object is stored under `key`.
    pub fn exists_object(&self, key: &str) -> (b: bool)
        ensures
            b == self.spec_has_object(key@),
    {
        self.storage.has_object(key)
    }

    /// The operation that records `obj` being touched by `operation_type`,
    /// following the last one.
    fn next_operation(&self, obj: &VaultObject, operation_type: &str, device: &Device) -> (r: Result<Operation, VartaError>)
        ensures
            self.spec_last_op() is None ==> r matches Err(VartaError::NoLastOperation),
            r is Ok <==> (self.spec_last_op() is Some && clock_get(self.spec_last_op()->0.vector_clock, device.spec_id())
                < u64::MAX),
            r matches Ok(op) ==> op_bytes(op@).len() == self.next_record_len(
                device.spec_id(),
                operation_type@,
                encode_utf8(obj@.key).len() as int,
            ),
            r is Ok && self.next_record_len(device.spec_id(), operation_type@, encode_utf8(obj@.key).len() as int)
                <= MAX_PLAINTEXT_SIZE ==> op_fits(r->Ok_0@),
            r matches Ok(op) ==> {
                &&& op_sealed(op@, device.spec_key())
                &&& op_well_formed(op@)
                &&& op@.operation_type == operation_type@
                &&& op@.agent_id == self.spec_agent_id()
                &&& op@.vault_name == self.spec_name()
                &&& op@.value_key == encode_utf8(obj@.key)
                &&& op@.value_hash == digest_of(obj@)
                &&& op@.vault_digest == self.spec_state_hash()
                &&& self.spec_last_op() is Some
                &&& op@.prev_op_hash == self.spec_last_op()->0.op_hash
            },
            r matches Ok(op) ==> op@.vector_clock == clock_set(
                self.spec_last_op()->0.vector_clock,
                device.spec_id(),
                (clock_get(self.spec_last_op()->0.vector_clock, device.spec_id()) + 1) as u64,
            ),
    {
        let prev = match &self.last_op {
            Some(p) => p,
            None => return Err(VartaError::NoLastOperation),
        };
        let r = Operation::new(self, obj, operation_type, prev, device);
        proof {
            if r is Ok {
                lemma_op_bytes_len(r->Ok_0@);
            }
        }
        r
    }

    /// After an operation: renews the state digest; when it changed, appends
    /// the last operation to the log; then saves the sealed record.
    fn finish_operation(&mut self, old_digest: [u8; 32]) -> (r: Result<(), VartaError>)
        requires
            old(self).spec_digest() == old_digest@,
        ensures
            final(self).spec_name() == old(self).spec_name(),
            final(self).spec_agent_id() == old(self).spec_agent_id(),
            final(self).spec_master_key() == old(self).spec_master_key(),
            final(self).spec_meta_key() == old(self).spec_meta_key(),
            final(self).spec_version() == old(self).spec_version(),
            final(self).spec_last_op() == old(self).spec_last_op(),
            final(self).spec_digest() == old(self).spec_state_hash(),
            final(self).spec_storage().spec_storage().spec_index() == old(self).spec_storage().spec_storage().spec_index(),
            (old(self).spec_last_op() is Some ==> op_fits(old(self).spec_last_op()->0) && op_bytes(
                old(self).spec_last_op()->0,
            ).len() <= MAX_PLAINTEXT_SIZE) && old(self).spec_audit().spec_storage().contents().len() + BLOCK_SIZE
                <= u64::MAX && old(self).indexes_fit() ==> r is Ok,
            r is Ok ==> final(self).headers_seal_record(),
            r is Ok && old(self).sized() ==> final(self).sized() && final(self).saved(),
            r is Ok && old(self).sized() ==> forall|key: Seq<char>, o: ObjectView|
                #[trigger] old(self).holds_object(key, o) ==> final(self).holds_object(key, o),
            r is Ok && old(self).sized() && final(self).spec_digest() != old_digest@ && final(self).spec_last_op() is Some
                ==> final(self).spec_audit().last_holds(op_bytes(final(self).spec_last_op()->0), final(self).spec_master_key())
                && op_fits(final(self).spec_last_op()->0),
            old(self).spec_storage().spec_storage().pending().is_prefix_of(
                final(self).spec_storage().spec_storage().pending(),
            ),
    {
        let new_digest = self.state_hash();
        self.vault_digest = new_digest;
        if !crate::bytes::arrays32_equal(&old_digest, &new_digest) {
            match &self.last_op {
                Some(op) => {
                    let bytes = match op.to_bytes() {
                        Ok(b) => b,
                        Err(e) => return Err(e),
                    };
                    match self.audit.append_operation(bytes.as_slice(), &self.master_key) {
                        Ok(_) => {},
                        Err(e) => return Err(e),
                    }
                },
                None => {},
            }
        }
        let ghost before_save = *self;
        let r = self.save();
        proof {
            if r is Ok && old(self).sized() {
                assert forall|key: Seq<char>, o: ObjectView| #[trigger] old(self).holds_object(key, o) implies self.holds_object(
                    key,
                    o,
                ) by {
                    assert(before_save.holds_object(key, o));
                }
            }
        }
        r
    }

    /// Creates the object `key` holding `value`, records the operation in the
    /// log (signed by `device`) and saves. Fails when the object exists.
    pub fn create_object(&mut self, key: String, value: Vec<u8>, device: &Device) -> (r: Result<(), VartaError>)
        ensures
            old(self).spec_has_object(key@) ==> (r == Err::<(), VartaError>(VartaError::ObjectAlreadyExists(key))
                && *final(self) == *old(self)),
            65 + encode_utf8(key@).len() + value@.len() > MAX_PLAINTEXT_SIZE ==> (r is Err && *final(self) == *old(self)),
            !old(self).spec_has_object(key@) && 65 + encode_utf8(key@).len() + value@.len() <= MAX_PLAINTEXT_SIZE
                && old(self).room_for_object(key@) && old(self).can_record(
                device.spec_id(),
                OP_CREATE@,
                encode_utf8(key@).len() as int,
            ) ==> r is Ok,
            final(self).spec_name() == old(self).spec_name(),
            final(self).spec_agent_id() == old(self).spec_agent_id(),
            final(self).spec_master_key() == old(self).spec_master_key(),
            final(self).spec_meta_key() == old(self).spec_meta_key(),
            r is Ok ==> {
                &&& final(self).spec_last_op() is Some
                &&& old(self).spec_last_op() is Some
                &&& final(self).spec_last_op()->0.operation_type == OP_CREATE@
                &&& final(self).spec_last_op()->0.value_key == encode_utf8(key@)
                &&& op_sealed(final(self).spec_last_op()->0, device.spec_key())
                &&& final(self).spec_last_op()->0.prev_op_hash == old(self).spec_last_op()->0.op_hash
                &&& final(self).headers_seal_record()
                &&& old(self).sized() ==> final(self).sized() && final(self).saved()
                &&& old(self).sized() ==> exists|o: ObjectView|
                    #[trigger] final(self).holds_object(key@, o) && o.key == key@ && o.value == value@ && o.status == 0
                        && o.digest == digest_of(o) && object_fits(o) && o.digest.len() == 32
                &&& op_well_formed(final(self).spec_last_op()->0)
                &&& old(self).sized() && final(self).spec_digest() != old(self).spec_digest() ==> final(self).spec_audit().last_holds(op_bytes(final(self).spec_last_op()->0), final(self).spec_master_key())
                    && op_fits(final(self).spec_last_op()->0)
            },
            r is Ok && old(self).sized() ==> forall|other: Seq<char>, o: ObjectView|
                #[trigger] old(self).holds_object(other, o) && old(self).spec_storage().object_key(other)
                    != old(self).spec_storage().object_key(key@) ==> final(self).holds_object(other, o),
            r is Ok ==> final(self).spec_storage().spec_storage().spec_index() == old(
                self,
            ).spec_storage().spec_storage().spec_index().insert(
                old(self).spec_storage().object_key(key@),
                (old(self).spec_storage().spec_storage().contents().len() as u64, BLOCK_SIZE as u64),
            ),
            r is Ok ==> final(self).spec_last_op()->0.vector_clock == clock_set(
                old(self).spec_last_op()->0.vector_clock,
                device.spec_id(),
                (clock_get(old(self).spec_last_op()->0.vector_clock, device.spec_id()) + 1) as u64,
            ),
    {
        if self.exists_object(key.as_str()) {
            return Err(VartaError::ObjectAlreadyExists(key));
        }
        let old_digest = self.vault_digest;
        let obj = VaultObject::new(key.clone(), value);
        let data = match obj.to_bytes() {
            Ok(d) => d,
            Err(e) => return Err(e),
        };
        proof {
            vstd::bytes::lemma_auto_spec_u64_to_from_le_bytes();
            vstd::bytes::lemma_auto_spec_u32_to_from_le_bytes();
            assert(data@.len() == 65 + encode_utf8(key@).len() + value@.len());
        }
        match self.storage.add_object(key.as_str(), data.as_slice(), &self.master_key) {
            Ok(_) => {},
            Err(e) => return Err(e),
        }
        let ghost after_add = *self;
        let op = match self.next_operation(&obj, OP_CREATE, device) {
            Ok(op) => op,
            Err(e) => return Err(e),
        };
        self.last_op = Some(op);
        let ghost pre = *self;
        let r = self.finish_operation(old_digest);
        proof {
            if r is Ok && old(self).sized() {
                assert forall|other: Seq<char>, o: ObjectView|
                    #[trigger] old(self).holds_object(other, o) && old(self).spec_storage().object_key(other)
                        != old(self).spec_storage().object_key(key@) implies self.holds_object(other, o) by {
                    assert(old(self).spec_storage().holds(other, object_bytes(o), old(self).spec_master_key()));
                    assert(after_add.holds_object(other, o));
                    assert(pre.holds_object(other, o));
                }
                assert(after_add.holds_object(key@, obj@));
                assert(pre.holds_object(key@, obj@));
                assert(self.holds_object(key@, obj@));
            }
        }
        r
    }

    /// Replaces the value of the object `key`, records the operation in the
    /// log (signed by `device`) and saves. Fails when the object does not exist.
    pub fn update_object(&mut self, key: &str, value: Vec<u8>, device: &Device) -> (r: Result<(), VartaError>)
        ensures
            !old(self).spec_has_object(key@) ==> (r matches Err(VartaError::ObjectNotFound(s)) && s@ == key@
                && *final(self) == *old(self)),
            forall|o: ObjectView|
                #[trigger] old(self).holds_object(key@, o) && object_fits(o) && o.digest.len() == 32 && 65 + encode_utf8(
                    o.key,
                ).len() + value@.len() <= MAX_PLAINTEXT_SIZE && old(self).spec_storage().spec_storage().spec_index()[old(
                    self,
                ).spec_storage().object_key(key@)].1 == BLOCK_SIZE && old(self).indexes_fit() && old(self).can_record(
                    device.spec_id(),
                    OP_UPDATE@,
                    encode_utf8(o.key).len() as int,
                ) ==> r is Ok,
            final(self).spec_name() == old(self).spec_name(),
            final(self).spec_agent_id() == old(self).spec_agent_id(),
            final(self).spec_master_key() == old(self).spec_master_key(),
            final(self).spec_meta_key() == old(self).spec_meta_key(),
            r is Ok ==> {
                &&& final(self).spec_last_op() is Some
                &&& old(self).spec_last_op() is Some
                &&& final(self).spec_last_op()->0.operation_type == OP_UPDATE@
                &&& op_sealed(final(self).spec_last_op()->0, device.spec_key())
                &&& final(self).spec_last_op()->0.prev_op_hash == old(self).spec_last_op()->0.op_hash
                &&& final(self).headers_seal_record()
                &&& old(self).sized() ==> final(self).sized() && final(self).saved()
            },
            r is Ok && old(self).sized() ==> forall|o: ObjectView|
                #[trigger] old(self).holds_object(key@, o) ==> final(self).spec_placed(key@),
            r is Ok && old(self).sized() ==> forall|o: ObjectView|
                #[trigger] old(self).holds_object(key@, o) && object_fits(o) && o.digest.len() == 32 ==> exists|n: ObjectView|
                    #[trigger] final(self).holds_object(key@, n) && n == (ObjectView {
                        value: value@,
                        updated_at: n.updated_at,
                        digest: digest_of(n),
                        ..o
                    }),
            r is Ok && old(self).sized() ==> forall|o: ObjectView|
                #[trigger] old(self).holds_object(key@, o) && object_fits(o) && o.digest.len() == 32 ==> exists|n: ObjectView|
                    #[trigger] final(self).holds_object(key@, n) && n.key == o.key && n.value == value@ && n.digest
                        == digest_of(n) && final(self).spec_last_op()->0.value_hash == n.digest
                        && final(self).spec_last_op()->0.value_key == encode_utf8(n.key),
            r is Ok && old(self).sized() ==> forall|other: Seq<char>, o: ObjectView|
                #[trigger] old(self).holds_object(other, o) && old(self).spec_storage().object_key(other)
                    != old(self).spec_storage().object_key(key@) && old(self).spec_storage().apart(other, key@)
                    ==> final(self).holds_object(other, o),
    {
        if !self.exists_object(key) {
            proof {
                self.lemma_absent_holds_nothing(key@);
            }
            return Err(VartaError::ObjectNotFound(key.to_string()));
        }
        let old_digest = self.vault_digest;
        let data = match self.storage.get_object(key, &self.master_key) {
            Ok(d) => d,
            Err(e) => return Err(e),
        };
        let mut obj = match VaultObject::from_bytes(data.as_slice()) {
            Ok(o) => o,
            Err(e) => {
                proof {
                    assert forall|o: ObjectView|
                        #[trigger] self.holds_object(key@, o) && object_fits(o) && o.digest.len() == 32 implies false by {
                        lemma_object_roundtrip(o);
                    }
                }
                return Err(e);
            },
        };
        let ghost before = obj@;
        proof {
            assert forall|o: ObjectView|
                #[trigger] old(self).holds_object(key@, o) && object_fits(o) && o.digest.len() == 32 implies before == o by {
                lemma_object_roundtrip(o);
            }
        }
        obj.update(value);
        let updated_data = match obj.to_bytes() {
            Ok(d) => d,
            Err(e) => return Err(e),
        };
        proof {
            vstd::bytes::lemma_auto_spec_u64_to_from_le_bytes();
            vstd::bytes::lemma_auto_spec_u32_to_from_le_bytes();
            assert(updated_data@.len() == 65 + encode_utf8(obj@.key).len() + obj@.value.len());
        }
        let off = match self.storage.upd_object(key, updated_data.as_slice(), &self.master_key) {
            Ok(off) => off,
            Err(e) => return Err(e),
        };
        let ghost after_upd = *self;
        let op = match self.next_operation(&obj, OP_UPDATE, device) {
            Ok(op) => op,
            Err(e) => return Err(e),
        };
        self.last_op = Some(op);
        let ghost pre = *self;
        let r = self.finish_operation(old_digest);
        proof {
            if r is Ok && old(self).sized() {
                assert forall|o: ObjectView| #[trigger] old(self).holds_object(key@, o) implies self.spec_placed(key@) by {
                    assert(old(self).spec_storage().holds(key@, object_bytes(o), old(self).spec_master_key()));
                }
                assert forall|o: ObjectView|
                    #[trigger] old(self).holds_object(key@, o) && object_fits(o) && o.digest.len() == 32 implies exists|n: ObjectView|
                    #[trigger] self.holds_object(key@, n) && n.key == o.key && n.value == value@ && n.digest == digest_of(n)
                        && self.spec_last_op()->0.value_hash == n.digest && self.spec_last_op()->0.value_key
                        == encode_utf8(n.key) by {
                    lemma_object_roundtrip(o);
                    assert(before == o);
                    assert(after_upd.holds_object(key@, obj@));
                    assert(pre.holds_object(key@, obj@));
                    assert(self.holds_object(key@, obj@));
                }
                assert forall|o: ObjectView|
                    #[trigger] old(self).holds_object(key@, o) && object_fits(o) && o.digest.len() == 32 implies exists|n: ObjectView|
                    #[trigger] self.holds_object(key@, n) && n == (ObjectView {
                        value: value@,
                        updated_at: n.updated_at,
                        digest: digest_of(n),
                        ..o
                    }) by {
                    lemma_object_roundtrip(o);
                    assert(before == o);
                    assert(after_upd.holds_object(key@, obj@));
                    assert(pre.holds_object(key@, obj@));
                    assert(self.holds_object(key@, obj@));
                }
                assert forall|other: Seq<char>, o: ObjectView|
                    #[trigger] old(self).holds_object(other, o) && old(self).spec_storage().object_key(other)
                        != old(self).spec_storage().object_key(key@) && old(self).spec_storage().apart(other, key@)
                        implies self.holds_object(other, o) by {
                    assert(old(self).spec_storage().holds(other, object_bytes(o), old(self).spec_master_key()));
                    assert(after_upd.holds_object(other, o));
                    assert(pre.holds_object(other, o));
                }
            }
        }
        r
    }

    /// Every block of the object storage seals, under the master key, the
    /// record of an object: the storage from which every object can be listed.
    pub open spec fn objects_readable(&self) -> bool {
        let st = self.spec_storage().spec_storage();
        forall|k: [u8; 32]|
            #[trigger] st.spec_index().dom().contains(k) ==> exists|bytes: Seq<u8>, data: Seq<u8>|
                st.stored_bytes(k) == Some(bytes) && seals_padded(bytes, self.spec_master_key(), data)
                    && parse_object(data) is Some
    }

    /// A block under one of `indices` that reads back as `data`, which is no
    /// object record, leaves the storage not readable.
    proof fn lemma_unreadable_at(&self, indices: Seq<[u8; 32]>, pos: int, data: Seq<u8>)
        requires
            0 <= pos < indices.len(),
            indices.to_set() == self.spec_storage().spec_storage().spec_index().dom(),
            parse_object(data) is None,
            forall|bytes: Seq<u8>, d: Seq<u8>|
                self.spec_storage().spec_storage().stored_bytes(indices[pos]) == Some(bytes)
                    && #[trigger] seals_padded(bytes, self.spec_master_key(), d) ==> d == data,
        ensures
            !self.objects_readable(),
    {
        if self.objects_readable() {
            let k = indices[pos];
            assert(indices.to_set().contains(k));
            let (bytes, d) = choose|bytes: Seq<u8>, d: Seq<u8>|
                self.spec_storage().spec_storage().stored_bytes(k) == Some(bytes) && seals_padded(
                    bytes,
                    self.spec_master_key(),
                    d,
                ) && parse_object(d) is Some;
        }
    }

    /// No object is held under a key that the index lacks.
    proof fn lemma_absent_holds_nothing(&self, key: Seq<char>)
        requires
            !self.spec_has_object(key),
        ensures
            forall|o: ObjectView| !#[trigger] self.holds_object(key, o),
    {
        assert forall|o: ObjectView| #[trigger] self.holds_object(key, o) implies false by {
            let (k, bytes) = choose|k: [u8; 32], bytes: Seq<u8>|
                k@ == crate::storage::obs::object_index(key) && self.spec_storage().spec_storage().stored_bytes(k)
                    == Some(bytes) && self.spec_storage().spec_storage().spec_index()[k].0 >= METADATA_SIZE
                    && seals_padded(bytes, self.spec_master_key(), object_bytes(o));
            self.spec_storage().lemma_object_key(key, k);
        }
    }

    /// The object stored under `key` lies past the metadata area.
    pub open spec fn spec_placed(&self, key: Seq<char>) -> bool {
        let st = self.spec_storage().spec_storage();
        st.spec_index()[self.spec_storage().object_key(key)].0 >= METADATA_SIZE
    }

    /// The object stored under `key`. Fails when there is none, or its record
    /// cannot be read or decoded.
    pub fn read_object(&self, key: &str) -> (r: Result<VaultObject, VartaError>)
        ensures
            !self.spec_has_object(key@) ==> (r matches Err(VartaError::ObjectNotFound(s)) && s@ == key@),
            forall|o: ObjectView|
                #[trigger] self.holds_object(key@, o) && object_fits(o) && o.digest.len() == 32 ==> (r matches Ok(x)
                    && x@ == o),
    {
        if !self.exists_object(key) {
            proof {
                assert forall|o: ObjectView|
                    #[trigger] self.holds_object(key@, o) && object_fits(o) && o.digest.len() == 32 implies false by {
                    let (k, bytes) = choose|k: [u8; 32], bytes: Seq<u8>|
                        k@ == crate::storage::obs::object_index(key@) && self.spec_storage().spec_storage().stored_bytes(k)
                            == Some(bytes) && self.spec_storage().spec_storage().spec_index()[k].0 >= METADATA_SIZE
                            && crate::storage::components::block::seals_padded(
                            bytes,
                            self.spec_master_key(),
                            object_bytes(o),
                        );
                    self.spec_storage().lemma_object_key(key@, k);
                }
            }
            return Err(VartaError::ObjectNotFound(key.to_string()));
        }
        let data = match self.storage.get_object(key, &self.master_key) {
            Ok(d) => d,
            Err(e) => return Err(e),
        };
        proof {
            assert forall|o: ObjectView|
                #[trigger] self.holds_object(key@, o) && object_fits(o) && o.digest.len() == 32 implies parse_object(
                    data@,
                ) == Some(o) by {
                lemma_object_roundtrip(o);
            }
        }
        VaultObject::from_bytes(data.as_slice())
    }

    /// Removes the object `key` (overwriting its block three times), records
    /// the operation in the log (signed by `device`) and saves. Fails when the
    /// object does not exist.
    pub fn delete_object(&mut self, key: &str, device: &Device) -> (r: Result<(), VartaError>)
        ensures
            !old(self).spec_has_object(key@) ==> (r matches Err(VartaError::ObjectNotFound(s)) && s@ == key@
                && *final(self) == *old(self)),
            old(self).spec_storage().spec_storage().stored_bytes(old(self).spec_storage().object_key(key@)) is Some
                && Storage::index_fits(
                old(self).spec_storage().spec_storage().spec_index().remove(old(self).spec_storage().object_key(key@)),
            ) && old(self).can_record(device.spec_id(), OP_DELETE@, encode_utf8(DELETED_MARKER_KEY@).len() as int)
                ==> r is Ok,
            final(self).spec_name() == old(self).spec_name(),
            final(self).spec_agent_id() == old(self).spec_agent_id(),
            final(self).spec_master_key() == old(self).spec_master_key(),
            final(self).spec_meta_key() == old(self).spec_meta_key(),
            r is Ok ==> {
                &&& !final(self).spec_has_object(key@)
                &&& final(self).spec_last_op() is Some
                &&& old(self).spec_last_op() is Some
                &&& final(self).spec_last_op()->0.operation_type == OP_DELETE@
                &&& op_sealed(final(self).spec_last_op()->0, device.spec_key())
                &&& final(self).spec_last_op()->0.prev_op_hash == old(self).spec_last_op()->0.op_hash
                &&& final(self).headers_seal_record()
                &&& old(self).sized() ==> final(self).sized() && final(self).saved()
            },
            r is Ok && old(self).sized() ==> forall|other: Seq<char>, o: ObjectView|
                #[trigger] old(self).holds_object(other, o) && old(self).spec_storage().object_key(other)
                    != old(self).spec_storage().object_key(key@) && old(self).spec_storage().apart(other, key@)
                    ==> final(self).holds_object(other, o),
            r is Ok ==> {
                let (off, len) = old(self).spec_storage().spec_storage().spec_index()[old(
                    self,
                ).spec_storage().object_key(key@)];
                let p = old(self).spec_storage().spec_storage().pending();
                let q = final(self).spec_storage().spec_storage().pending();
                &&& q.len() >= p.len() + 6
                &&& three_pass_overwrite(q.subrange(p.len() as int, p.len() + 6int), off, len as nat)
            },
    {
        if !self.exists_object(key) {
            return Err(VartaError::ObjectNotFound(key.to_string()));
        }
        let old_digest = self.vault_digest;
        match self.storage.secure_del_object(key, &self.master_key) {
            Ok(()) => {},
            Err(e) => return Err(e),
        }
        let ghost after_del = *self;
        let marker = VaultObject::new(DELETED_MARKER_KEY.to_string(), Vec::new());
        let op = match self.next_operation(&marker, OP_DELETE, device) {
            Ok(op) => op,
            Err(e) => return Err(e),
        };
        self.last_op = Some(op);
        let ghost pre = *self;
        let r = self.finish_operation(old_digest);
        proof {
            if r is Ok && old(self).sized() {
                assert forall|other: Seq<char>, o: ObjectView|
                    #[trigger] old(self).holds_object(other, o) && old(self).spec_storage().object_key(other)
                        != old(self).spec_storage().object_key(key@) && old(self).spec_storage().apart(other, key@)
                        implies self.holds_object(other, o) by {
                    assert(old(self).spec_storage().holds(other, object_bytes(o), old(self).spec_master_key()));
                    assert(after_del.holds_object(other, o));
                    assert(pre.holds_object(other, o));
                }
            }
        }
        r
    }

    /// Walks the stored objects, decrypting each in turn.
    pub fn list_objects_iter(&self) -> (it: ObjectPlainIter<'_>)
        ensures
            *it.spec_storage() == self.spec_storage().spec_storage(),
            it.spec_aes_key()@ == self.spec_master_key(),
            it.spec_position() == 0,
            it.spec_indices().to_set() == self.spec_storage().spec_storage().spec_index().dom(),
            it.spec_indices().no_duplicates(),
    {
        self.storage.list_objects(&self.master_key)
    }

    /// The keys of all stored objects. Fails on the first object that cannot
    /// be read or decoded.
    pub fn list_objects(&self) -> (r: Result<Vec<String>, VartaError>)
        ensures
            self.objects_readable() ==> r is Ok,
            r matches Ok(keys) ==> keys@.len() == self.spec_storage().spec_storage().spec_index().dom().len(),
            r matches Ok(keys) ==> forall|key: Seq<char>, o: ObjectView|
                #[trigger] self.holds_object(key, o) && object_fits(o) && o.digest.len() == 32 ==> lists_key(keys@, o.key),
    {
        let mut it = self.storage.list_objects(&self.master_key);
        let ghost n = it.spec_indices().len();
        let ghost indices = it.spec_indices();
        let ghost st = self.spec_storage().spec_storage();
        let ghost mk = self.spec_master_key();
        let mut keys: Vec<String> = Vec::new();
        proof {
            it.spec_indices().unique_seq_to_set();
        }
        loop
            invariant
                0 <= it.spec_position() <= n,
                it.spec_indices() == indices,
                indices.len() == n,
                *it.spec_storage() == st,
                it.spec_aes_key()@ == mk,
                keys@.len() == it.spec_position(),
                n == st.spec_index().dom().len(),
                indices.to_set() == st.spec_index().dom(),
                st == self.spec_storage().spec_storage(),
                mk == self.spec_master_key(),
                forall|j: int, bytes: Seq<u8>, data: Seq<u8>|
                    #![trigger indices[j], seals_padded(bytes, mk, data)]
                    0 <= j < keys@.len() && st.stored_bytes(indices[j]) == Some(bytes) && seals_padded(bytes, mk, data)
                        && parse_object(data) is Some ==> keys@[j]@ == parse_object(data)->0.key,
            ensures
                keys@.len() == n,
                forall|j: int, bytes: Seq<u8>, data: Seq<u8>|
                    #![trigger indices[j], seals_padded(bytes, mk, data)]
                    0 <= j < keys@.len() && st.stored_bytes(indices[j]) == Some(bytes) && seals_padded(bytes, mk, data)
                        && parse_object(data) is Some ==> keys@[j]@ == parse_object(data)->0.key,
            decreases n - it.spec_position(),
        {
            let ghost pos = it.spec_position();
            match it.next() {
                None => break,
                Some(Ok(data)) => {
                    let obj = match VaultObject::from_bytes(data.as_slice()) {
                        Ok(o) => o,
                        Err(e) => {
                            proof {
                                self.lemma_unreadable_at(indices, pos, data@);
                            }
                            return Err(e);
                        },
                    };
                    let ghost dv = data@;
                    keys.push(obj.key().to_string());
                    proof {
                        assert forall|j: int, bytes: Seq<u8>, d: Seq<u8>|
                            #![trigger indices[j], seals_padded(bytes, mk, d)]
                            0 <= j < keys@.len() && st.stored_bytes(indices[j]) == Some(bytes) && seals_padded(bytes, mk, d)
                                && parse_object(d) is Some implies keys@[j]@ == parse_object(d)->0.key by {
                            if j == pos {
                                assert(d == dv);
                            }
                        }
                    }
                },
                Some(Err(e)) => {
                    proof {
                        if self.objects_readable() {
                            let k = indices[pos];
                            assert(indices.to_set().contains(k));
                            assert(st.spec_index().dom().contains(k));
                        }
                    }
                    return Err(e);
                },
            }
        }
        proof {
            assert forall|key: Seq<char>, o: ObjectView|
                #[trigger] self.holds_object(key, o) && object_fits(o) && o.digest.len() == 32 implies lists_key(
                    keys@,
                    o.key,
                ) by {
                let (k, bytes) = choose|k: [u8; 32], bytes: Seq<u8>|
                    k@ == crate::storage::obs::object_index(key) && st.stored_bytes(k) == Some(bytes)
                        && st.spec_index()[k].0 >= METADATA_SIZE && seals_padded(bytes, mk, object_bytes(o));
                assert(indices.to_set().contains(k));
                let j = choose|j: int| 0 <= j < indices.len() && indices[j] == k;
                lemma_object_roundtrip(o);
                assert(keys@[j]@ == o.key);
            }
        }
        Ok(keys)
    }

    /// The key of the vault's objects: HKDF-SHA-256 over the master key,
    /// with the vault name as context.
    pub fn derive_vault_key(&self) -> (key: [u8; 32])
        ensures
            key@ == hkdf_sha256(encode_utf8(VAULT_AES_KEY_SALT@), self.spec_master_key(), encode_utf8(self.spec_name())),
    {
        hkdf_sha256_32(VAULT_AES_KEY_SALT.as_bytes(), &self.master_key, self.name.as_str().as_bytes())
    }

    /// The meta key of the vault named `name`: HKDF-SHA-256 over the vault key,
    /// with the name as context.
    pub fn derive_meta_key(derivation_key: &[u8; 32], name: &str) -> (key: [u8; 32])
        ensures
            key@ == vault_meta_key(derivation_key@, name@),
    {
        hkdf_sha256_32(VAULT_META_KEY_SALT.as_bytes(), derivation_key, name.as_bytes())
    }

    /// The state digest: version, agent id, name, master key, the current
    /// digest and the last operation's digest, hashed together.
    pub fn state_hash(&self) -> (h: [u8; 32])
        ensures
            h@ == self.spec_state_hash(),
    {
        let mut buf: Vec<u8> = Vec::new();
        buf.push(self.version);
        push_slice(&mut buf, &self.agent_id);
        push_slice(&mut buf, self.name.as_str().as_bytes());
        push_slice(&mut buf, &self.master_key);
        push_slice(&mut buf, &self.vault_digest);
        match &self.last_op {
            Some(op) => {
                let h = op.op_hash();
                push_slice(&mut buf, &h);
            },
            None => {},
        }
        assert(buf@ =~= state_input(
            self.version,
            self.agent_id@,
            self.name@,
            self.master_key@,
            self.vault_digest@,
            self.spec_last_op(),
        ));
        sha256_digest(buf.as_slice())
    }

    /// The folder name of a vault: the first 16 bytes of the digest of the
    /// agent id and the name, in hexadecimal.
    pub fn hash_dir_name(agent_id: [u8; 32], name: &str) -> (s: String)
        ensures
            s@ == vault_dir_name(agent_id@, name@),
    {
        let mut buf: Vec<u8> = Vec::new();
        push_slice(&mut buf, &agent_id);
        push_slice(&mut buf, name.as_bytes());
        let hash = sha256_digest(buf.as_slice());
        let head = &hash.as_slice()[0..16];
        hex_encode(head)
    }

    /// The folder of the vault named `name` of the agent `agent_id`.
    pub fn get_path(agent_id: [u8; 32], name: &str) -> (p: String)
        ensures
            p@ == vault_path(agent_id@, name@),
    {
        let mut p = Agent::get_path(agent_id);
        p.append("/");
        let d = Vault::hash_dir_name(agent_id, name);
        p.append(d.as_str());
        proof {
            reveal_strlit("/");
        }
        p
    }

    /// The common stem of the vault's two files, inside its folder.
    pub fn file_path(agent_id: [u8; 32], name: &str) -> (p: String)
        ensures
            p@ == vault_file_stem(agent_id@, name@),
    {
        let mut p = Vault::get_path(agent_id, name);
        p.append("/");
        p.append(VAULT_FILE_NAME);
        proof {
            reveal_strlit("/");
        }
        p
    }

    /// The path of the object file of the vault `name` of the agent `agent_id`.
    pub fn object_file_path(agent_id: [u8; 32], name: &str) -> (p: String)
        ensures
            p@ == path_with_extension(vault_file_stem(agent_id@, name@), OBJECT_FILE_EXT@),
    {
        let stem = Vault::file_path(agent_id, name);
        proof {
            lemma_vault_file_stem_portable(agent_id@, name@);
            crate::storage::obs::lemma_object_file_ext_plain();
        }
        crate::sys::with_extension(stem.as_str(), OBJECT_FILE_EXT)
    }

    /// The path of the log of the vault `name` of the agent `agent_id`.
    pub fn log_file_path(agent_id: [u8; 32], name: &str) -> (p: String)
        ensures
            p@ == OperationStorage::log_path(vault_file_stem(agent_id@, name@)),
    {
        let mut p = Vault::file_path(agent_id, name);
        p.append(".");
        p.append(OPERATION_FILE_EXT);
        proof {
            reveal_strlit(".");
        }
        p
    }

    /// The path of the vault's object file.
    pub fn object_path(&self) -> (p: &str)
        ensures
            p@ == self.spec_storage().spec_storage().spec_path(),
    {
        self.storage.storage().path()
    }

    /// The path of the vault's log.
    pub fn log_path(&self) -> (p: &str)
        ensures
            p@ == self.spec_audit().spec_storage().spec_path(),
    {
        self.audit.storage().path()
    }

    /// Hands out the file effects not yet applied: those of the object file,
    /// then those of the log. Applied in order to the files on disk, they
    /// bring each file to the vault's image of it.
    pub fn take_pending(&mut self) -> (r: (Vec<FileOp>, Vec<FileOp>))
        ensures
            crate::storage::file::apply_ops(old(self).spec_storage().spec_storage().on_disk(), r.0@) == old(
                self,
            ).spec_storage().spec_storage().contents(),
            crate::storage::file::apply_ops(old(self).spec_audit().spec_storage().on_disk(), r.1@) == old(
                self,
            ).spec_audit().spec_storage().contents(),
            final(self).spec_storage().spec_storage().contents() == old(self).spec_storage().spec_storage().contents(),
            final(self).spec_audit().spec_storage().contents() == old(self).spec_audit().spec_storage().contents(),
            final(self).spec_storage().spec_storage().on_disk() == old(self).spec_storage().spec_storage().contents(),
            final(self).spec_audit().spec_storage().on_disk() == old(self).spec_audit().spec_storage().contents(),
    {
        let a = self.storage.storage_mut().take_pending();
        let b = self.audit.storage_mut().take_pending();
        (a, b)
    }
}

/// `w` is a saved vault whose files hold `object_file` and `log_file`, whose
/// meta key is the one derived from `derivation_key` for `name`, whose headers
/// both carry a nonce (not all zeros), and whose log ends with the record of
/// its last operation: the vault that `open` reads back from those files.
pub open spec fn reopens(
    w: Vault,
    name: Seq<char>,
    derivation_key: Seq<u8>,
    object_file: Seq<u8>,
    log_file: Seq<u8>,
) -> bool {
    &&& w.saved()
    &&& object_file == w.spec_storage().spec_storage().contents()
    &&& log_file == w.spec_audit().spec_storage().contents()
    &&& w.spec_meta_key() == vault_meta_key(derivation_key, name)
    &&& w.spec_storage().spec_storage().spec_header().spec_metadata_nonce() != Seq::new(12, |i: int| 0u8)
    &&& w.spec_audit().spec_storage().spec_header().spec_metadata_nonce() != Seq::new(12, |i: int| 0u8)
    &&& w.spec_last_op() is Some
    &&& op_fits(w.spec_last_op()->0)
    &&& op_well_formed(w.spec_last_op()->0)
    &&& w.spec_audit().last_holds(op_bytes(w.spec_last_op()->0), w.spec_master_key())
}

/// Whether one of `keys` is `key`.
pub open spec fn lists_key(keys: Seq<String>, key: Seq<char>) -> bool {
    exists|j: int| 0 <= j < keys.len() && #[trigger] keys[j]@ == key
}

/// Whether `data` reads as an operation record.
pub open spec fn parse_operation_some(data: Seq<u8>) -> bool {
    crate::operation::parse_operation(data) is Some
}

} // verus!
