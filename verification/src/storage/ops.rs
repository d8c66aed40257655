//! Operation storage: a vault's audit log, a storage file followed by padded
//! blocks that each seal one operation record, appended in order.
use vstd::prelude::*;
use crate::error::VartaError;
use crate::config::OPERATION_FILE_EXT;
use super::storage::{Storage, METADATA_SIZE};
use super::components::block::{Block, seals_padded, BLOCK_SIZE, MAX_PLAINTEXT_SIZE};
use super::components::block_header::BlockType;
use super::components::header::{Header, FileType, FILE_HEADER_SIZE};

verus! {

broadcast use super::components::header::group_header_updates;

pub struct OperationStorage {
    storage: Storage,
}

impl OperationStorage {
    pub closed spec fn spec_storage(self) -> Storage {
        self.storage
    }

    /// Whether the last padded block of the log seals `data` under `aes_key`.
    pub open spec fn last_holds(self, data: Seq<u8>, aes_key: Seq<u8>) -> bool {
        let c = self.spec_storage().contents();
        &&& c.len() >= FILE_HEADER_SIZE + BLOCK_SIZE
        &&& seals_padded(c.subrange(c.len() - BLOCK_SIZE, c.len() as int), aes_key, data)
    }

    /// The file name of the log of the vault whose files start with `path`.
    pub open spec fn log_path(path: Seq<char>) -> Seq<char> {
        path + seq!['.'] + OPERATION_FILE_EXT@
    }

    /// A new, empty log at `path` with the operation file extension.
    pub fn new(path: &str) -> (ops: Self)
        ensures
            ops.spec_storage().spec_path() == Self::log_path(path@),
            ops.spec_storage().spec_index() == Map::<[u8; 32], (u64, u64)>::empty(),
            ops.spec_storage().spec_header().spec_file_type() == FileType::Storage,
            ops.spec_storage().contents().len() == METADATA_SIZE,
    {
        let header = Header::new(FileType::Storage);
        let mut full = String::from_str(path);
        full.append(".");
        full.append(OPERATION_FILE_EXT);
        proof {
            reveal_strlit(".");
        }
        let storage = Storage::create(full.as_str(), header);
        OperationStorage { storage }
    }

    /// The log at `path` (with the operation file extension) whose file holds `contents`.
    pub fn open(path: &str, contents: Vec<u8>) -> (r: Result<Self, VartaError>)
        ensures
            r matches Ok(ops) ==> ops.spec_storage().spec_path() == Self::log_path(path@)
                && ops.spec_storage().contents() == contents@ && ops.spec_storage().contents().len() >= METADATA_SIZE,
            forall|w: Storage|
                #[trigger] w.metadata_in_file() && w.contents() == contents@ ==> (r matches Ok(ops)
                    && ops.spec_storage().spec_header() == w.spec_header() && ops.spec_storage().spec_index()
                    == w.spec_index()),
    {
        let mut full = String::from_str(path);
        full.append(".");
        full.append(OPERATION_FILE_EXT);
        proof {
            reveal_strlit(".");
            assert forall|w: Storage| #[trigger] w.metadata_in_file() && w.contents() == contents@ implies super::storage::metadata_bytes(
                w.spec_header(),
                w.spec_index(),
            ) == contents@.subrange(0, METADATA_SIZE as int) by {}
        }
        match Storage::open(full.as_str(), contents) {
            Ok(storage) => Ok(OperationStorage { storage }),
            Err(e) => Err(e),
        }
    }

    pub fn storage(&self) -> (s: &Storage)
        ensures
            *s == self.spec_storage(),
    {
        &self.storage
    }

    pub fn storage_mut(&mut self) -> (s: &mut Storage)
        ensures
            *s == old(self).spec_storage(),
            final(self).spec_storage() == *final(s),
    {
        &mut self.storage
    }

    /// Stores sealed vault metadata in the header and rewrites the metadata.
    pub fn set_vault_metadata(&mut self, nonce: [u8; 12], ciphertext: [u8; 97], tag: [u8; 16]) -> (r: Result<(), VartaError>)
        ensures
            final(self).spec_storage().spec_header().spec_metadata_nonce() == nonce@,
            final(self).spec_storage().spec_header().spec_metadata_ciphertext() == ciphertext@,
            final(self).spec_storage().spec_header().spec_metadata_tag() == tag@,
            final(self).spec_storage().spec_index() == old(self).spec_storage().spec_index(),
            final(self).spec_storage().spec_path() == old(self).spec_storage().spec_path(),
            r is Ok <==> Storage::index_fits(old(self).spec_storage().spec_index()),
            r is Ok && old(self).spec_storage().contents().len() >= METADATA_SIZE ==> final(self).spec_storage().contents().subrange(
                METADATA_SIZE as int,
                final(self).spec_storage().contents().len() as int,
            ) == old(self).spec_storage().contents().subrange(
                METADATA_SIZE as int,
                old(self).spec_storage().contents().len() as int,
            ) && final(self).spec_storage().contents().len() == old(self).spec_storage().contents().len(),
            r is Ok && old(self).spec_storage().contents().len() >= METADATA_SIZE ==> final(self).spec_storage().metadata_in_file(),
            r is Ok && old(self).spec_storage().contents().len() >= METADATA_SIZE + BLOCK_SIZE ==> forall|
                data: Seq<u8>,
                aes_key: Seq<u8>,
            | #[trigger] old(self).last_holds(data, aes_key) ==> final(self).last_holds(data, aes_key),
    {
        self.storage.header_mut().set_vault_metadata(nonce, ciphertext, tag);
        let r = self.storage.update_metadata();
        proof {
            let c0 = old(self).spec_storage().contents();
            let c1 = self.spec_storage().contents();
            if r is Ok && c0.len() >= METADATA_SIZE + BLOCK_SIZE {
                let lo = c0.len() - BLOCK_SIZE;
                assert(c1.subrange(lo, c1.len() as int) =~= c0.subrange(lo, c0.len() as int)) by {
                    assert forall|i: int| lo <= i < c0.len() implies c1[i] == c0[i] by {
                        assert(c1.subrange(METADATA_SIZE as int, c1.len() as int)[i - METADATA_SIZE] == c1[i]);
                        assert(c0.subrange(METADATA_SIZE as int, c0.len() as int)[i - METADATA_SIZE] == c0[i]);
                    }
                }
            }
        }
        r
    }

    pub fn get_vault_metadata(&self) -> (r: (&[u8; 12], &[u8; 97], &[u8; 16]))
        ensures
            r.0@ == self.spec_storage().spec_header().spec_metadata_nonce(),
            r.1@ == self.spec_storage().spec_header().spec_metadata_ciphertext(),
            r.2@ == self.spec_storage().spec_header().spec_metadata_tag(),
    {
        self.storage.header().get_vault_metadata()
    }

    pub fn has_vault_metadata(&self) -> (b: bool)
        ensures
            b == (self.spec_storage().spec_header().spec_metadata_nonce() != Seq::new(12, |i: int| 0u8)),
    {
        self.storage.header().has_vault_metadata()
    }

    /// Seals `data` under `aes_key` in a padded block appended to the log.
    /// Hands back the block's offset.
    pub fn append_operation(&mut self, data: &[u8], aes_key: &[u8; 32]) -> (r: Result<u64, VartaError>)
        ensures
            final(self).spec_storage().spec_path() == old(self).spec_storage().spec_path(),
            final(self).spec_storage().spec_header() == old(self).spec_storage().spec_header(),
            final(self).spec_storage().spec_index() == old(self).spec_storage().spec_index(),
            data@.len() > MAX_PLAINTEXT_SIZE ==> (r matches Err(VartaError::PlaintextTooLarge(n)) && n
                == data@.len() && *final(self) == *old(self)),
            data@.len() <= MAX_PLAINTEXT_SIZE ==> (r is Ok <==> old(self).spec_storage().contents().len()
                + BLOCK_SIZE <= u64::MAX),
            r matches Ok(off) ==> off == old(self).spec_storage().contents().len()
                && final(self).spec_storage().contents().len() == old(self).spec_storage().contents().len() + BLOCK_SIZE
                && final(self).spec_storage().contents().subrange(0, old(self).spec_storage().contents().len() as int)
                    == old(self).spec_storage().contents(),
            r is Ok && old(self).spec_storage().contents().len() >= FILE_HEADER_SIZE ==> final(self).last_holds(
                data@,
                aes_key@,
            ),
    {
        let block = match Block::encrypt_padded(BlockType::Custom, aes_key, data) {
            Ok(b) => b,
            Err(e) => {
                return Err(e);
            },
        };
        let offset = self.storage.size();
        let bytes = block.to_bytes();
        let ghost c0 = self.storage.contents();
        match self.storage.append(bytes.as_slice()) {
            Ok(()) => {},
            Err(e) => {
                return Err(e);
            },
        }
        proof {
            let c = self.storage.contents();
            assert(c.subrange(c.len() - BLOCK_SIZE, c.len() as int) =~= bytes@);
            assert(c.subrange(0, c0.len() as int) =~= c0);
        }
        Ok(offset)
    }

    /// Decrypts the last padded block of the log, if the log holds one past the file header.
    pub fn read_last_operation(&self, aes_key: &[u8; 32]) -> (r: Result<Option<Vec<u8>>, VartaError>)
        ensures
            self.spec_storage().contents().len() < FILE_HEADER_SIZE + BLOCK_SIZE ==> r matches Ok(None),
            forall|data: Seq<u8>| #[trigger] self.last_holds(data, aes_key@) ==> (r matches Ok(Some(v)) && v@ == data),
    {
        let file_size = self.storage.size();
        let block_size = Block::block_size() as u64;
        let meta_size = self.storage.header().size() as u64;
        if file_size <= meta_size {
            return Ok(None);
        }
        let data_size = file_size - meta_size;
        if data_size < block_size {
            return Ok(None);
        }
        let last_offset = file_size - block_size;
        let all = self.storage.read_binary();
        let buffer = slice_tail(all.as_slice(), last_offset - meta_size);
        proof {
            let c = self.storage.contents();
            assert(buffer@ =~= c.subrange(c.len() - BLOCK_SIZE, c.len() as int));
        }
        let block = match Block::from_bytes(buffer.as_slice()) {
            Ok(b) => b,
            Err(e) => {
                return Err(e);
            },
        };
        match block.decrypt(aes_key) {
            Ok(p) => Ok(Some(p)),
            Err(e) => Err(e),
        }
    }
}

/// The bytes of `data` from `start` on.
fn slice_tail(data: &[u8], start: u64) -> (tail: Vec<u8>)
    requires
        start <= data@.len(),
    ensures
        tail@ == data@.subrange(start as int, data@.len() as int),
{
    let mut tail: Vec<u8> = Vec::new();
    crate::bytes::push_slice(&mut tail, &data[start as usize..data.len()]);
    tail
}

} // verus!
