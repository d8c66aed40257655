//! Object storage: a vault's objects, each sealed in a padded block that is
//! stored under the SHA-256 digest of the object's key.
use vstd::prelude::*;
use crate::error::VartaError;
use crate::config::OBJECT_FILE_EXT;
use crate::crypto::primitives::sha256;
use crate::sys::{with_extension, path_with_extension, portable_path, plain_extension};
use super::file::FileOp;
use super::storage::{Storage, METADATA_SIZE, metadata_bytes, three_pass_overwrite};
use super::components::index::Index;
use super::components::block::{Block, BLOCK_SIZE, MAX_PLAINTEXT_SIZE, seals_padded};
use super::components::block_header::BlockType;
use super::components::header::{Header, FileType};

verus! {

broadcast use super::components::header::group_header_updates;

pub struct ObjectStorage {
    storage: Storage,
}

/// The object file extension holds no path separator.
pub proof fn lemma_object_file_ext_plain()
    ensures
        plain_extension(OBJECT_FILE_EXT@),
{
    reveal_strlit("svrt");
}

/// The index key of an object key: the SHA-256 digest of its UTF-8 bytes.
pub open spec fn object_index(key: Seq<char>) -> Seq<u8> {
    sha256(vstd::utf8::encode_utf8(key))
}

impl ObjectStorage {
    pub closed spec fn spec_storage(self) -> Storage {
        self.storage
    }

    /// Whether the storage holds `data` sealed under `aes_key` for the object
    /// `key`, in a block past the metadata area.
    pub open spec fn holds(self, key: Seq<char>, data: Seq<u8>, aes_key: Seq<u8>) -> bool {
        exists|k: [u8; 32], bytes: Seq<u8>|
            k@ == object_index(key) && self.spec_storage().stored_bytes(k) == Some(bytes)
                && self.spec_storage().spec_index()[k].0 >= METADATA_SIZE && seals_padded(bytes, aes_key, data)
    }

    /// The blocks that the index places under the objects `a` and `b` do not
    /// overlap (trivially so when either has none).
    pub open spec fn apart(self, a: Seq<char>, b: Seq<char>) -> bool {
        let st = self.spec_storage();
        let ka = self.object_key(a);
        let kb = self.object_key(b);
        st.spec_index().dom().contains(ka) && st.spec_index().dom().contains(kb) ==> {
            let (oa, la) = st.spec_index()[ka];
            let (ob, lb) = st.spec_index()[kb];
            oa + la <= ob || ob + lb <= oa
        }
    }

    /// The file holds at least its metadata area.
    pub open spec fn sized(self) -> bool {
        self.spec_storage().contents().len() >= METADATA_SIZE
    }

    /// A new, empty object storage file at `path` with the object file extension.
    pub fn new(path: &str) -> (obs: Self)
        ensures
            portable_path(path@) ==> obs.spec_storage().spec_path() == path_with_extension(path@, OBJECT_FILE_EXT@),
            obs.spec_storage().spec_index() == Map::<[u8; 32], (u64, u64)>::empty(),
            obs.spec_storage().spec_header().spec_file_type() == FileType::Storage,
            obs.spec_storage().contents().len() == METADATA_SIZE,
    {
        let header = Header::new(FileType::Storage);
        proof {
            lemma_object_file_ext_plain();
        }
        let path_with_ext = with_extension(path, OBJECT_FILE_EXT);
        let storage = Storage::create(path_with_ext.as_str(), header);
        ObjectStorage { storage }
    }

    /// The object storage at `path` (with the object file extension) whose file holds `contents`.
    pub fn open(path: &str, contents: Vec<u8>) -> (r: Result<Self, VartaError>)
        ensures
            r matches Ok(obs) ==> (portable_path(path@) ==> obs.spec_storage().spec_path() == path_with_extension(path@, OBJECT_FILE_EXT@))
                && obs.spec_storage().contents() == contents@ && obs.sized(),
            forall|w: Storage|
                #[trigger] w.metadata_in_file() && w.contents() == contents@ ==> (r matches Ok(obs)
                    && obs.spec_storage().spec_header() == w.spec_header() && obs.spec_storage().spec_index()
                    == w.spec_index()),
    {
        proof {
            lemma_object_file_ext_plain();
        }
        let path_with_ext = with_extension(path, OBJECT_FILE_EXT);
        proof {
            assert forall|w: Storage| #[trigger] w.metadata_in_file() && w.contents() == contents@ implies metadata_bytes(
                w.spec_header(),
                w.spec_index(),
            ) == contents@.subrange(0, METADATA_SIZE as int) by {}
        }
        match Storage::open(path_with_ext.as_str(), contents) {
            Ok(storage) => Ok(ObjectStorage { storage }),
            Err(e) => Err(e),
        }
    }

    pub fn storage(&self) -> (s: &Storage)
        ensures
            *s == self.spec_storage(),
    {
        &self.storage
    }

    pub fn storage_mut(&mut self) -> (s: &mut Storage)
        ensures
            *s == old(self).spec_storage(),
            final(self).spec_storage() == *final(s),
    {
        &mut self.storage
    }

    /// Stores sealed vault metadata in the header and rewrites the metadata.
    pub fn set_vault_metadata(&mut self, nonce: [u8; 12], ciphertext: [u8; 97], tag: [u8; 16]) -> (r: Result<(), VartaError>)
        ensures
            final(self).spec_storage().spec_header().spec_metadata_nonce() == nonce@,
            final(self).spec_storage().spec_header().spec_metadata_ciphertext() == ciphertext@,
            final(self).spec_storage().spec_header().spec_metadata_tag() == tag@,
            final(self).spec_storage().spec_index() == old(self).spec_storage().spec_index(),
            final(self).spec_storage().spec_path() == old(self).spec_storage().spec_path(),
            r is Ok <==> Storage::index_fits(old(self).spec_storage().spec_index()),
            r is Ok && old(self).sized() ==> final(self).sized() && final(self).spec_storage().metadata_in_file(),
            r is Ok && old(self).sized() ==> forall|key: Seq<char>, data: Seq<u8>, aes_key: Seq<u8>|
                #[trigger] old(self).holds(key, data, aes_key) ==> final(self).holds(key, data, aes_key),
            old(self).spec_storage().pending().is_prefix_of(final(self).spec_storage().pending()),
    {
        self.storage.header_mut().set_vault_metadata(nonce, ciphertext, tag);
        let r = self.storage.update_metadata();
        proof {
            if r is Ok && old(self).sized() {
                let c0 = old(self).spec_storage().contents();
                let c1 = self.spec_storage().contents();
                assert forall|key: Seq<char>, data: Seq<u8>, aes_key: Seq<u8>|
                    #[trigger] old(self).holds(key, data, aes_key) implies self.holds(key, data, aes_key) by {
                    let (k, bytes) = choose|k: [u8; 32], bytes: Seq<u8>|
                        k@ == object_index(key) && old(self).spec_storage().stored_bytes(k) == Some(bytes)
                            && old(self).spec_storage().spec_index()[k].0 >= METADATA_SIZE && seals_padded(
                            bytes,
                            aes_key,
                            data,
                        );
                    let (off, len) = old(self).spec_storage().spec_index()[k];
                    assert(c1.subrange(off as int, off + len) =~= c0.subrange(off as int, off + len)) by {
                        assert forall|i: int| off <= i < off + len implies c1[i] == c0[i] by {
                            assert(c1.subrange(METADATA_SIZE as int, c1.len() as int)[i - METADATA_SIZE] == c1[i]);
                            assert(c0.subrange(METADATA_SIZE as int, c0.len() as int)[i - METADATA_SIZE] == c0[i]);
                        }
                    }
                    assert(self.spec_storage().stored_bytes(k) == Some(bytes));
                }
            }
        }
        r
    }

    pub fn get_vault_metadata(&self) -> (r: (&[u8; 12], &[u8; 97], &[u8; 16]))
        ensures
            r.0@ == self.spec_storage().spec_header().spec_metadata_nonce(),
            r.1@ == self.spec_storage().spec_header().spec_metadata_ciphertext(),
            r.2@ == self.spec_storage().spec_header().spec_metadata_tag(),
    {
        self.storage.header().get_vault_metadata()
    }

    pub fn has_vault_metadata(&self) -> (b: bool)
        ensures
            b == (self.spec_storage().spec_header().spec_metadata_nonce() != Seq::new(12, |i: int| 0u8)),
    {
        self.storage.header().has_vault_metadata()
    }

    /// The index key of an object key.
    fn index_of(key: &str) -> (k: [u8; 32])
        ensures
            k@ == object_index(key@),
    {
        Index::index_hash(key.as_bytes())
    }

    /// Seals `data` under `aes_key` in a new padded block and appends it under
    /// the object's index key. Hands back the block's offset.
    pub fn add_object(&mut self, key: &str, data: &[u8], aes_key: &[u8; 32]) -> (r: Result<u64, VartaError>)
        ensures
            final(self).spec_storage().spec_path() == old(self).spec_storage().spec_path(),
            data@.len() > MAX_PLAINTEXT_SIZE ==> (r matches Err(VartaError::PlaintextTooLarge(n))
                && n == data@.len() && *final(self) == *old(self)),
            data@.len() <= MAX_PLAINTEXT_SIZE ==> (r is Ok <==> (
                old(self).spec_storage().contents().len() + BLOCK_SIZE <= u64::MAX && Storage::index_fits(
                old(self).spec_storage().spec_index().insert(
                    old(self).object_key(key@),
                    (old(self).spec_storage().contents().len() as u64, BLOCK_SIZE as u64),
                ),
            ))),
            r is Ok ==> Storage::index_fits(final(self).spec_storage().spec_index()),
            r is Ok ==> final(self).spec_storage().spec_index().dom() == old(self).spec_storage().spec_index().dom().insert(
                final(self).object_key(key@),
            ),
            r is Ok && old(self).sized() ==> final(self).holds(key@, data@, aes_key@) && final(self).sized(),
            r is Ok && old(self).sized() ==> forall|other: Seq<char>, d: Seq<u8>, k: Seq<u8>|
                #[trigger] old(self).holds(other, d, k) && old(self).object_key(other) != old(self).object_key(key@)
                    ==> final(self).holds(other, d, k),
            r is Ok ==> final(self).spec_storage().spec_index() == old(self).spec_storage().spec_index().insert(
                old(self).object_key(key@),
                (old(self).spec_storage().contents().len() as u64, BLOCK_SIZE as u64),
            ),
    {
        let index = Self::index_of(key);
        let block = match Block::encrypt_padded(BlockType::Password, aes_key, data) {
            Ok(b) => b,
            Err(e) => {
                return Err(e);
            },
        };
        let ghost bb = block.spec_bytes();
        let r = self.storage.add_block(block, index);
        proof {
            old(self).lemma_object_key(key@, index);
            if r is Ok && old(self).sized() {
                self.lemma_object_key(key@, index);
                let c0 = old(self).spec_storage().contents();
                let c1 = self.spec_storage().contents();
                assert forall|other: Seq<char>, d: Seq<u8>, k: Seq<u8>|
                    #[trigger] old(self).holds(other, d, k) && old(self).object_key(other) != old(self).object_key(key@)
                        implies self.holds(other, d, k) by {
                    let (k2, bytes) = choose|k2: [u8; 32], bytes: Seq<u8>|
                        k2@ == object_index(other) && old(self).spec_storage().stored_bytes(k2) == Some(bytes)
                            && old(self).spec_storage().spec_index()[k2].0 >= METADATA_SIZE && seals_padded(bytes, k, d);
                    old(self).lemma_object_key(other, k2);
                    let (off, len) = old(self).spec_storage().spec_index()[k2];
                    let mb = super::storage::metadata_bytes(self.spec_storage().spec_header(), self.spec_storage().spec_index());
                    self.spec_storage().spec_header().lemma_bytes_len();
                    assert(mb.len() == METADATA_SIZE);
                    assert(c1.subrange(off as int, off + len) =~= c0.subrange(off as int, off + len)) by {
                        assert forall|i: int| off <= i < off + len implies c1[i] == c0[i] by {
                            assert(c0.subrange(METADATA_SIZE as int, c0.len() as int)[i - METADATA_SIZE] == c0[i]);
                        }
                    }
                    assert(self.spec_storage().stored_bytes(k2) == Some(bytes));
                }
            }
        }
        proof {
            if r is Ok {
                assert(self.object_key(key@) == index) by {
                    self.lemma_object_key(key@, index);
                }
                if old(self).spec_storage().contents().len() >= METADATA_SIZE {
                    assert(self.spec_storage().stored_bytes(index) == Some(bb));
                }
            }
        }
        r
    }

    /// The index key (as an array) of an object key.
    pub open spec fn object_key(self, key: Seq<char>) -> [u8; 32] {
        choose|k: [u8; 32]| k@ == object_index(key)
    }

    /// The index key of an object key is the array whose bytes are its digest.
    pub proof fn lemma_object_key(self, key: Seq<char>, k: [u8; 32])
        requires
            k@ == object_index(key),
        ensures
            self.object_key(key) == k,
    {
        let c = self.object_key(key);
        assert(c@ == object_index(key));
        assert(c =~= k);
    }

    /// Seals `data` under `aes_key` in a new padded block and stores it under
    /// the object's index key, in place when the old block has the same size.
    pub fn upd_object(&mut self, key: &str, data: &[u8], aes_key: &[u8; 32]) -> (r: Result<u64, VartaError>)
        ensures
            final(self).spec_storage().spec_path() == old(self).spec_storage().spec_path(),
            data@.len() > MAX_PLAINTEXT_SIZE ==> (r matches Err(VartaError::PlaintextTooLarge(n))
                && n == data@.len() && *final(self) == *old(self)),
            r is Ok && old(self).sized() ==> final(self).sized(),
            r matches Ok(off) && off >= METADATA_SIZE && old(self).sized() ==> final(self).holds(key@, data@, aes_key@),
            r matches Ok(off) ==> final(self).spec_storage().spec_index().dom().contains(final(self).object_key(key@))
                && final(self).spec_storage().spec_index()[final(self).object_key(key@)].0 == off,
            r is Ok && old(self).sized() ==> forall|other: Seq<char>, d: Seq<u8>, k: Seq<u8>|
                #[trigger] old(self).holds(other, d, k) && old(self).object_key(other) != old(self).object_key(key@)
                    && old(self).apart(other, key@) ==> final(self).holds(other, d, k),
            forall|d: Seq<u8>, k: Seq<u8>|
                #[trigger] old(self).holds(key@, d, k) && data@.len() <= MAX_PLAINTEXT_SIZE
                    && old(self).spec_storage().spec_index()[old(self).object_key(key@)].1 == BLOCK_SIZE ==> (r is Ok
                    && final(self).spec_storage().spec_index() == old(self).spec_storage().spec_index()),
            forall|d: Seq<u8>, k: Seq<u8>|
                #[trigger] old(self).holds(key@, d, k) ==> (r is Ok && old(self).sized()
                    ==> final(self).spec_storage().spec_index()[final(self).object_key(key@)].0 >= METADATA_SIZE),
    {
        let index = Self::index_of(key);
        let block = match Block::encrypt_padded(BlockType::Password, aes_key, data) {
            Ok(b) => b,
            Err(e) => {
                return Err(e);
            },
        };
        let ghost bb = block.spec_bytes();
        let r = self.storage.upd_block(block, index);
        proof {
            self.lemma_object_key(key@, index);
            old(self).lemma_object_key(key@, index);
            assert forall|d: Seq<u8>, k: Seq<u8>|
                #[trigger] old(self).holds(key@, d, k) && data@.len() <= MAX_PLAINTEXT_SIZE
                    && old(self).spec_storage().spec_index()[old(self).object_key(key@)].1 == BLOCK_SIZE implies (r is Ok
                    && self.spec_storage().spec_index() == old(self).spec_storage().spec_index()) by {
                let (k2, bytes) = choose|k2: [u8; 32], bytes: Seq<u8>|
                    k2@ == object_index(key@) && old(self).spec_storage().stored_bytes(k2) == Some(bytes)
                        && old(self).spec_storage().spec_index()[k2].0 >= METADATA_SIZE && seals_padded(bytes, k, d);
                assert(k2 =~= index);
            }
            if r is Ok && old(self).spec_storage().contents().len() >= METADATA_SIZE {
                assert(self.spec_storage().stored_bytes(index) == Some(bb));
                old(self).lemma_others_kept(*self, key@, index);
            }
            assert forall|d: Seq<u8>, k: Seq<u8>| #[trigger] old(self).holds(key@, d, k) && r is Ok && old(
                self,
            ).sized() implies self.spec_storage().spec_index()[self.object_key(key@)].0 >= METADATA_SIZE by {
                let (k2, bytes) = choose|k2: [u8; 32], bytes: Seq<u8>|
                    k2@ == object_index(key@) && old(self).spec_storage().stored_bytes(k2) == Some(bytes)
                        && old(self).spec_storage().spec_index()[k2].0 >= METADATA_SIZE && seals_padded(bytes, k, d);
                assert(k2 =~= index);
            }
        }
        r
    }

    /// When the index agrees on every key but `key`'s, and every byte past the
    /// metadata area outside `key`'s block stays, every other object whose
    /// block lies apart from it is still held.
    proof fn lemma_others_kept(self, after: Self, key: Seq<char>, index: [u8; 32])
        requires
            index@ == object_index(key),
            self.sized(),
            after.spec_storage().spec_index().remove(index) == self.spec_storage().spec_index().remove(index),
            after.spec_storage().contents().len() >= self.spec_storage().contents().len(),
            forall|i: int|
                METADATA_SIZE <= i < self.spec_storage().contents().len() && self.spec_storage().outside_block(index, i)
                    ==> #[trigger] after.spec_storage().contents()[i] == self.spec_storage().contents()[i],
        ensures
            forall|other: Seq<char>, d: Seq<u8>, k: Seq<u8>|
                #[trigger] self.holds(other, d, k) && self.object_key(other) != self.object_key(key)
                    && self.apart(other, key) ==> after.holds(other, d, k),
    {
        self.lemma_object_key(key, index);
        assert forall|other: Seq<char>, d: Seq<u8>, k: Seq<u8>|
            #[trigger] self.holds(other, d, k) && self.object_key(other) != self.object_key(key)
                && self.apart(other, key) implies after.holds(other, d, k) by {
            let (k2, bytes) = choose|k2: [u8; 32], bytes: Seq<u8>|
                k2@ == object_index(other) && self.spec_storage().stored_bytes(k2) == Some(bytes)
                    && self.spec_storage().spec_index()[k2].0 >= METADATA_SIZE && seals_padded(bytes, k, d);
            self.lemma_object_key(other, k2);
            let m0 = self.spec_storage().spec_index();
            let m1 = after.spec_storage().spec_index();
            assert(m0.remove(index).dom().contains(k2));
            assert(m1.remove(index).dom().contains(k2));
            assert(m1[k2] == m1.remove(index)[k2]);
            assert(m0[k2] == m0.remove(index)[k2]);
            let (off, len) = m0[k2];
            let c0 = self.spec_storage().contents();
            let c1 = after.spec_storage().contents();
            assert(c1.subrange(off as int, off + len) =~= c0.subrange(off as int, off + len)) by {
                assert forall|i: int| off <= i < off + len implies c1[i] == c0[i] by {
                    assert(self.spec_storage().outside_block(index, i));
                }
            }
            assert(after.spec_storage().stored_bytes(k2) == Some(bytes));
        }
    }

    /// Reads and decrypts the object stored under `key`.
    pub fn get_object(&self, key: &str, aes_key: &[u8; 32]) -> (r: Result<Vec<u8>, VartaError>)
        ensures
            !self.spec_storage().spec_index().dom().contains(self.object_key(key@)) ==> r matches Err(
                VartaError::BlockNotFound,
            ),
            forall|data: Seq<u8>| #[trigger] self.holds(key@, data, aes_key@) ==> (r matches Ok(v) && v@ == data),
    {
        let index = Self::index_of(key);
        proof {
            self.lemma_object_key(key@, index);
        }
        let block = match self.storage.get_block(&index) {
            Ok(b) => b,
            Err(e) => {
                proof {
                    assert forall|data: Seq<u8>| #[trigger] self.holds(key@, data, aes_key@) implies false by {
                        let (k, bytes) = choose|k: [u8; 32], bytes: Seq<u8>|
                            k@ == object_index(key@) && self.spec_storage().stored_bytes(k) == Some(bytes) && seals_padded(
                                bytes,
                                aes_key@,
                                data,
                            );
                        assert(k =~= index);
                    }
                }
                return Err(e);
            },
        };
        let r = block.decrypt(aes_key);
        proof {
            assert forall|data: Seq<u8>| #[trigger] self.holds(key@, data, aes_key@) implies (r matches Ok(v) && v@ == data) by {
                let (k, bytes) = choose|k: [u8; 32], bytes: Seq<u8>|
                    k@ == object_index(key@) && self.spec_storage().stored_bytes(k) == Some(bytes) && seals_padded(
                        bytes,
                        aes_key@,
                        data,
                    );
                assert(k =~= index);
                assert(block.read_from(bytes));
            }
        }
        r
    }

    /// Removes the object stored under `key`, overwriting its block with zeros.
    pub fn del_object(&mut self, key: &str, _aes_key: &[u8; 32]) -> (r: Result<(), VartaError>)
        ensures
            final(self).spec_storage().spec_path() == old(self).spec_storage().spec_path(),
            !old(self).spec_storage().spec_index().dom().contains(old(self).object_key(key@)) ==> (r matches Err(
                VartaError::BlockNotFound,
            ) && *final(self) == *old(self)),
            r is Ok ==> final(self).spec_storage().spec_index() == old(self).spec_storage().spec_index().remove(
                old(self).object_key(key@),
            ),
            old(self).spec_storage().stored_bytes(old(self).object_key(key@)) is Some ==> (r is Ok <==> Storage::index_fits(
                old(self).spec_storage().spec_index().remove(old(self).object_key(key@)),
            )),
            r is Ok && old(self).sized() ==> final(self).sized(),
            r is Ok && old(self).sized() ==> forall|other: Seq<char>, d: Seq<u8>, k: Seq<u8>|
                #[trigger] old(self).holds(other, d, k) && old(self).object_key(other) != old(self).object_key(key@)
                    && old(self).apart(other, key@) ==> final(self).holds(other, d, k),
            r is Ok && old(self).sized() && old(self).spec_storage().spec_index()[old(self).object_key(key@)].0
                >= METADATA_SIZE ==> {
                let (off, len) = old(self).spec_storage().spec_index()[old(self).object_key(key@)];
                final(self).spec_storage().contents().subrange(off as int, off + len) == Seq::new(
                    len as nat,
                    |i: int| 0u8,
                )
            },
    {
        let index = Self::index_of(key);
        proof {
            self.lemma_object_key(key@, index);
        }
        let r = self.storage.del_block(&index);
        proof {
            if r is Ok && old(self).sized() {
                assert(self.spec_storage().spec_index().remove(index) =~= old(self).spec_storage().spec_index().remove(
                    index,
                ));
                old(self).lemma_others_kept(*self, key@, index);
                let (off, len) = old(self).spec_storage().spec_index()[index];
                if off >= METADATA_SIZE {
                    let c0 = old(self).spec_storage().contents();
                    let z = Seq::new(len as nat, |i: int| 0u8);
                    let w = super::file::write_at(c0, off as int, z);
                    super::file::lemma_write_at(c0, off as int, z);
                    let c1 = self.spec_storage().contents();
                    self.spec_storage().spec_header().lemma_bytes_len();
                    assert(c1.subrange(off as int, off + len) =~= z) by {
                        assert forall|i: int| off <= i < off + len implies c1[i] == 0u8 by {
                            assert(c1[i] == w.subrange(METADATA_SIZE as int, w.len() as int)[i - METADATA_SIZE]);
                        }
                    }
                }
            }
        }
        r
    }

    /// Removes the object stored under `key`, overwriting its block three times.
    pub fn secure_del_object(&mut self, key: &str, _aes_key: &[u8; 32]) -> (r: Result<(), VartaError>)
        ensures
            r is Ok && old(self).sized() ==> final(self).sized(),
            final(self).spec_storage().spec_path() == old(self).spec_storage().spec_path(),
            !old(self).spec_storage().spec_index().dom().contains(old(self).object_key(key@)) ==> (r matches Err(
                VartaError::BlockNotFound,
            ) && *final(self) == *old(self)),
            r is Ok ==> final(self).spec_storage().spec_index() == old(self).spec_storage().spec_index().remove(
                old(self).object_key(key@),
            ),
            r is Ok && old(self).sized() ==> forall|other: Seq<char>, d: Seq<u8>, k: Seq<u8>|
                #[trigger] old(self).holds(other, d, k) && old(self).object_key(other) != old(self).object_key(key@)
                    && old(self).apart(other, key@) ==> final(self).holds(other, d, k),
            old(self).spec_storage().stored_bytes(old(self).object_key(key@)) is Some ==> (r is Ok <==> Storage::index_fits(
                old(self).spec_storage().spec_index().remove(old(self).object_key(key@)),
            )),
            r is Ok ==> {
                let (off, len) = old(self).spec_storage().spec_index()[old(self).object_key(key@)];
                let p = old(self).spec_storage().pending();
                &&& p.is_prefix_of(final(self).spec_storage().pending())
                &&& final(self).spec_storage().pending().len() >= p.len() + 6
                &&& three_pass_overwrite(
                    final(self).spec_storage().pending().subrange(p.len() as int, p.len() + 6int),
                    off,
                    len as nat,
                )
            },
    {
        let index = Self::index_of(key);
        proof {
            self.lemma_object_key(key@, index);
        }
        let r = self.storage.secure_del_block(&index);
        proof {
            if r is Ok && old(self).sized() {
                assert(self.spec_storage().spec_index().remove(index) =~= old(self).spec_storage().spec_index().remove(
                    index,
                ));
                old(self).lemma_others_kept(*self, key@, index);
            }
        }
        r
    }

    /// Decrypts, one by one, every stored object under `aes_key`.
    pub fn list_objects<'a>(&'a self, aes_key: &'a [u8; 32]) -> (it: ObjectPlainIter<'a>)
        ensures
            *it.spec_storage() == self.spec_storage(),
            it.spec_aes_key()@ == aes_key@,
            it.spec_position() == 0,
            it.spec_indices().to_set() == self.spec_storage().spec_index().dom(),
            it.spec_indices().no_duplicates(),
    {
        ObjectPlainIter { storage: &self.storage, indices: self.storage.list_indices(), pos: 0, aes_key }
    }

    /// Whether an object is stored under `key`.
    pub fn has_object(&self, key: &str) -> (b: bool)
        ensures
            b == self.spec_storage().spec_index().dom().contains(self.object_key(key@)),
    {
        let index = Self::index_of(key);
        proof {
            self.lemma_object_key(key@, index);
        }
        self.storage.has_block(&index)
    }

    /// Removes the storage file after overwriting it with random bytes.
    pub fn secure_delete(self) -> (ops: Vec<FileOp>)
        ensures
            ops@.len() >= 2,
            ops@[ops@.len() - 1] is Remove,
    {
        self.storage.secure_delete()
    }
}

/// Walks the stored objects, decrypting each in turn.
pub struct ObjectPlainIter<'a> {
    storage: &'a Storage,
    indices: Vec<[u8; 32]>,
    pos: usize,
    aes_key: &'a [u8; 32],
}

impl<'a> ObjectPlainIter<'a> {
    pub closed spec fn spec_storage(self) -> &'a Storage {
        self.storage
    }

    pub closed spec fn spec_indices(self) -> Seq<[u8; 32]> {
        self.indices@
    }

    pub closed spec fn spec_position(self) -> int {
        self.pos as int
    }

    pub closed spec fn spec_aes_key(self) -> &'a [u8; 32] {
        self.aes_key
    }

    /// The next object's plaintext (or the error met reading it), or `None`
    /// once every object was visited.
    pub fn next(&mut self) -> (r: Option<Result<Vec<u8>, VartaError>>)
        ensures
            old(self).spec_position() >= old(self).spec_indices().len() ==> (r is None && *final(self) == *old(self)),
            old(self).spec_position() < old(self).spec_indices().len() ==> {
                &&& r is Some
                &&& final(self).spec_position() == old(self).spec_position() + 1
                &&& final(self).spec_indices() == old(self).spec_indices()
                &&& final(self).spec_storage() == old(self).spec_storage()
                &&& final(self).spec_aes_key() == old(self).spec_aes_key()
                &&& forall|bytes: Seq<u8>, data: Seq<u8>|
                    old(self).spec_storage().stored_bytes(old(self).spec_indices()[old(self).spec_position()]) == Some(bytes)
                        && #[trigger] seals_padded(bytes, old(self).spec_aes_key()@, data) ==> (r matches Some(Ok(v)) && v@ == data)
            },
    {
        if self.pos >= self.indices.len() {
            return None;
        }
        let index = self.indices[self.pos];
        self.pos = self.pos + 1;
        let res = match self.storage.get_block(&index) {
            Ok(block) => {
                let d = block.decrypt(self.aes_key);
                proof {
                    assert forall|bytes: Seq<u8>, data: Seq<u8>|
                        self.storage.stored_bytes(index) == Some(bytes)
                            && #[trigger] seals_padded(bytes, self.aes_key@, data) implies (d matches Ok(v) && v@ == data) by {
                        assert(block.read_from(bytes));
                    }
                }
                d
            },
            Err(e) => Err(e),
        };
        Some(res)
    }
}

} // verus!
