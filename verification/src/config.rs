//! Names, file extensions and key-derivation labels shared by the whole library.
use vstd::prelude::*;
use crate::crypto::primitives::os_random_key;

verus! {

/// Version written into vault metadata and object records.
pub const VERSION: u8 = 1;

/// Folder under which every agent keeps its files.
pub const ROOT_SECRETS_FOLDER: &'static str = "secrets";

/// Extension of a vault's object storage file.
pub const OBJECT_FILE_EXT: &'static str = "svrt";
/// Extension of a vault's operation (audit) log file.
pub const OPERATION_FILE_EXT: &'static str = "avrt";

/// File that holds an agent's sealed master key.
pub const MASTER_KEY_FILE: &'static str = "master_key";
/// Base name of a vault's files inside its folder.
pub const VAULT_FILE_NAME: &'static str = "varta";

pub const AGENT_META_KEY_SALT_PREFIX: &'static str = "varta_meta_aes_seed_";
pub const AGENT_META_KEY_CONTEXT: &'static str = "varta_meta_aes";
pub const AGENT_MASTER_KEY_SALT: &'static str = "varta_agent_master_key";
pub const AGENT_MASTER_KEY_CONTEXT: &'static str = "varta_agent_master_key";
pub const AGENT_VAULT_KEY_SALT_PREFIX: &'static str = "varta_vault_derivation_";
pub const AGENT_VAULT_KEY_CONTEXT: &'static str = "varta_vault_key";

pub const VAULT_AES_KEY_SALT: &'static str = "varta_vault_aes_encryption";
pub const VAULT_META_KEY_SALT: &'static str = "varta_meta_encryption";

pub const OP_INITIAL: &'static str = "initial";
pub const OP_CREATE: &'static str = "create_object";
pub const OP_UPDATE: &'static str = "update_object";
pub const OP_DELETE: &'static str = "delete_object";

pub const OP_MERGE: &'static str = "Merge";
pub const OP_CONFLICT: &'static str = "Conflict";

pub const OP_SYNC: &'static str = "Sync";
pub const OP_SYNC_SUCCESS: &'static str = "SyncSuccess";
pub const OP_SYNC_FAIL: &'static str = "SyncFail";

pub const OP_ACCESS: &'static str = "Access";
pub const OP_LIST: &'static str = "List";
pub const OP_READ: &'static str = "Read";

/// A fresh 32-byte key from the operating system's random source.
pub fn generate_random_key() -> (key: [u8; 32]) {
    os_random_key()
}

} // verus!
