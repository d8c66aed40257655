//! Varta: an encrypted vault for high-sensitivity secrets.
//!
//! The library holds the vault's on-disk formats (file headers, encrypted
//! blocks, the block index, vault metadata and the object and operation
//! records), the storage engine that keeps an exact in-memory image of each
//! vault file together with the writes that bring the file on disk to that
//! image, and the agent, vault and session logic built on top of them.
pub mod error;
pub mod bytes;
pub mod text;
pub mod record;
pub mod vault_object;
pub mod clock;
pub mod device;
pub mod os;
pub mod operation;
pub mod agent;
pub mod vault;
pub mod session;
pub mod cli;
pub mod config;
pub mod common;
pub mod crypto;
pub mod sys;
pub mod storage;

use vstd::prelude::*;

verus! {

} // verus!
