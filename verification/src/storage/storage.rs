//! A vault file: the file header, the 12 KiB index block, then encrypted
//! blocks. The library keeps the file's bytes in a `FileImage`; every change
//! is also recorded as file effects that the owner of the file carries out.
use vstd::prelude::*;
use crate::bytes::{push_slice, arrays32_equal, filled};
use crate::error::VartaError;
use crate::crypto::primitives::{sha256, sha256_digest, hmac_sha256, hmac_sha256_tag, thread_random_bytes};
use super::file::{FileImage, FileOp, apply_ops, write_at};
use super::components::header::{Header, read_header, write_header, FILE_HEADER_SIZE};
use super::components::index::{
    Index, read_index, write_index, index_block, borsh_index_encoding, borsh_index_decoding,
    INDEX_BLOCK_SIZE, lemma_index_encoding_roundtrip,
};
use super::components::block::Block;

verus! {

broadcast use {super::components::header::group_header_updates, vstd::seq_lib::group_seq_properties};

/// Bytes taken by the file header and the index block together.
pub const METADATA_SIZE: usize = 12584;

pub struct Storage {
    path: String,
    header: Header,
    index: Index,
    file: FileImage,
}

/// The effects that rewrite a file's metadata: the header `h` at offset 0,
/// the index block of `m` after it, then a flush.
pub open spec fn metadata_writes(ops: Seq<FileOp>, h: Header, m: Map<[u8; 32], (u64, u64)>) -> bool {
    &&& ops.len() == 3
    &&& ops[0] matches FileOp::WriteAt(o, b) && o == 0 && b@ == h.spec_bytes()
    &&& ops[1] matches FileOp::WriteAt(o, b) && o == FILE_HEADER_SIZE && b@ == index_block(m)
    &&& ops[2] is Sync
}

/// The effects of overwriting `len` bytes at `off` three times, each pass
/// flushed: with zeros, then with 0xFF bytes, then with random bytes.
pub open spec fn three_pass_overwrite(ops: Seq<FileOp>, off: u64, len: nat) -> bool {
    &&& ops.len() == 6
    &&& ops[0] matches FileOp::WriteAt(o, b) && o == off && b@ == Seq::new(len, |i: int| 0u8)
    &&& ops[1] is Sync
    &&& ops[2] matches FileOp::WriteAt(o, b) && o == off && b@ == Seq::new(len, |i: int| 0xFFu8)
    &&& ops[3] is Sync
    &&& ops[4] matches FileOp::WriteAt(o, b) && o == off && b@.len() == len
    &&& ops[5] is Sync
}

/// The bytes of the file header followed by the index block.
pub open spec fn metadata_bytes(header: Header, index: Map<[u8; 32], (u64, u64)>) -> Seq<u8> {
    header.spec_bytes() + index_block(index)
}

/// Data that begins with a header's bytes and an index block parses as that header.
proof fn lemma_metadata_header(data: Seq<u8>, hd: Header, m: Map<[u8; 32], (u64, u64)>)
    requires
        data.len() >= METADATA_SIZE,
        data.subrange(0, METADATA_SIZE as int) == metadata_bytes(hd, m),
    ensures
        Header::parses(data),
        hd.fields_match(data),
        forall|h: Header| h.fields_match(data) ==> h == hd,
{
    hd.lemma_bytes_len();
    assert(data.subrange(0, FILE_HEADER_SIZE as int) =~= hd.spec_bytes());
    super::components::header::lemma_fields_match_prefix(hd, data);
    super::components::header::lemma_header_bytes_parse(hd);
    assert forall|h: Header| h.fields_match(data) implies h == hd by {
        super::components::header::lemma_fields_match_prefix(h, data);
        super::components::header::lemma_header_roundtrip(hd, h);
    }
}

/// Data that begins with a header's bytes and an index block holds the index
/// encoding right after the header.
proof fn lemma_metadata_index(data: Seq<u8>, hd: Header, m: Map<[u8; 32], (u64, u64)>)
    requires
        data.len() >= METADATA_SIZE,
        data.subrange(0, METADATA_SIZE as int) == metadata_bytes(hd, m),
        borsh_index_encoding(m).len() <= INDEX_BLOCK_SIZE,
    ensures
        data.subrange(FILE_HEADER_SIZE as int, FILE_HEADER_SIZE + borsh_index_encoding(m).len())
            == borsh_index_encoding(m),
{
    hd.lemma_bytes_len();
    let mb = metadata_bytes(hd, m);
    let e = borsh_index_encoding(m);
    assert(mb.subrange(FILE_HEADER_SIZE as int, FILE_HEADER_SIZE + e.len()) =~= e);
    assert(data.subrange(FILE_HEADER_SIZE as int, FILE_HEADER_SIZE + e.len()) =~= mb.subrange(
        FILE_HEADER_SIZE as int,
        FILE_HEADER_SIZE + e.len(),
    ));
}

impl Storage {
    pub closed spec fn spec_path(self) -> Seq<char> {
        self.path@
    }

    pub closed spec fn spec_header(self) -> Header {
        self.header
    }

    /// The index: key to (offset, length) of the block in the file.
    pub closed spec fn spec_index(self) -> Map<[u8; 32], (u64, u64)> {
        self.index@
    }

    /// The bytes of the file.
    pub closed spec fn contents(self) -> Seq<u8> {
        self.file.contents()
    }

    /// The bytes of the file on disk before the pending effects.
    pub closed spec fn on_disk(self) -> Seq<u8> {
        self.file.on_disk()
    }

    /// The file effects not yet handed out.
    pub closed spec fn pending(self) -> Seq<FileOp> {
        self.file.pending()
    }

    /// Whether byte `i` lies outside the block that the index places under
    /// `key` (every byte does when the index has no such key).
    pub open spec fn outside_block(self, key: [u8; 32], i: int) -> bool {
        self.spec_index().dom().contains(key) ==> {
            let (off, len) = self.spec_index()[key];
            i < off || off + len <= i
        }
    }

    /// The bytes that the index places under `key`, when the index has the key
    /// and the file reaches that far.
    pub open spec fn stored_bytes(self, key: [u8; 32]) -> Option<Seq<u8>> {
        if self.spec_index().dom().contains(key) {
            let (off, len) = self.spec_index()[key];
            if off + len <= self.contents().len() {
                Some(self.contents().subrange(off as int, off + len))
            } else {
                None
            }
        } else {
            None
        }
    }

    /// Writes the header and the index block, in that order. Fails after the
    /// header when the index does not fit into its block.
    fn write_metadata_to_file(out: &mut Vec<u8>, header: &Header, index: &Index) -> (r: Result<(), VartaError>)
        ensures
            r is Ok <==> (index@.dom().len() <= u32::MAX && borsh_index_encoding(index@).len() <= INDEX_BLOCK_SIZE),
            r is Ok ==> final(out)@ == old(out)@ + metadata_bytes(*header, index@),
            !(r is Ok) ==> final(out)@ == old(out)@ + header.spec_bytes(),
    {
        write_header(out, header);
        let r = write_index(out, index);
        proof {
            if r is Ok {
                assert(final(out)@ =~= old(out)@ + metadata_bytes(*header, index@));
            }
        }
        r
    }

    /// Reads the header and the index that follow it.
    fn read_metadata_from_file(data: &[u8]) -> (r: Result<(Header, Index), VartaError>)
        ensures
            r matches Ok((h, idx)) ==> {
                &&& Header::parses(data@)
                &&& h.fields_match(data@)
                &&& h.spec_index_size() <= INDEX_BLOCK_SIZE
                &&& data@.len() >= METADATA_SIZE
                &&& (h.spec_index_size() == 0 ==> idx@ == Map::<[u8; 32], (u64, u64)>::empty())
                &&& (h.spec_index_size() > 0 ==> borsh_index_decoding(
                    data@.subrange(FILE_HEADER_SIZE as int, FILE_HEADER_SIZE + h.spec_index_size()),
                ) == Some(idx@))
            },
            forall|hd: Header, m: Map<[u8; 32], (u64, u64)>|
                #![trigger metadata_bytes(hd, m)]
                (data@.len() >= METADATA_SIZE && data@.subrange(0, METADATA_SIZE as int) == metadata_bytes(hd, m)
                    && hd.spec_index_size() == borsh_index_encoding(m).len() && hd.spec_index_size() > 0
                    && borsh_index_encoding(m).len() <= INDEX_BLOCK_SIZE && m.dom().finite()
                    && m.dom().len() <= u32::MAX) ==> (r matches Ok((h, idx)) && h == hd && idx@ == m),
    {
        let header = match read_header(data) {
            Ok(h) => h,
            Err(e) => {
                proof {
                    assert forall|hd: Header, m: Map<[u8; 32], (u64, u64)>|
                        #![trigger metadata_bytes(hd, m)]
                        (data@.len() >= METADATA_SIZE && data@.subrange(0, METADATA_SIZE as int) == metadata_bytes(hd, m)) implies false by {
                        lemma_metadata_header(data@, hd, m);
                    }
                }
                return Err(e);
            },
        };
        let size = header.index_size();
        if size as usize > INDEX_BLOCK_SIZE {
            proof {
                assert forall|hd: Header, m: Map<[u8; 32], (u64, u64)>|
                    #![trigger metadata_bytes(hd, m)]
                    (data@.len() >= METADATA_SIZE && data@.subrange(0, METADATA_SIZE as int) == metadata_bytes(hd, m)
                    && hd.spec_index_size() == borsh_index_encoding(m).len()
                    && borsh_index_encoding(m).len() <= INDEX_BLOCK_SIZE) implies false by {
                    lemma_metadata_header(data@, hd, m);
                }
            }
            return Err(VartaError::IndexSizeOutOfRange(size));
        }
        let rest = &data[FILE_HEADER_SIZE..data.len()];
        proof {
            if data@.len() >= METADATA_SIZE {
                assert(rest@.subrange(0, size as int) =~= data@.subrange(
                    FILE_HEADER_SIZE as int,
                    FILE_HEADER_SIZE + size,
                ));
            }
        }
        let index = match read_index(rest, size) {
            Ok(i) => i,
            Err(e) => {
                proof {
                    assert forall|hd: Header, m: Map<[u8; 32], (u64, u64)>|
                        #![trigger metadata_bytes(hd, m)]
                        (data@.len() >= METADATA_SIZE && data@.subrange(0, METADATA_SIZE as int) == metadata_bytes(hd, m)
                            && hd.spec_index_size() == borsh_index_encoding(m).len() && hd.spec_index_size() > 0
                            && borsh_index_encoding(m).len() <= INDEX_BLOCK_SIZE && m.dom().finite()
                            && m.dom().len() <= u32::MAX) implies false by {
                        lemma_metadata_header(data@, hd, m);
                        lemma_metadata_index(data@, hd, m);
                        assert(rest@.subrange(0, size as int) == borsh_index_encoding(m));
                    }
                }
                return Err(e);
            },
        };
        proof {
            assert(rest@.subrange(0, size as int) =~= data@.subrange(
                FILE_HEADER_SIZE as int,
                FILE_HEADER_SIZE + size,
            ));
            assert forall|hd: Header, m: Map<[u8; 32], (u64, u64)>|
                #![trigger metadata_bytes(hd, m)]
                (data@.len() >= METADATA_SIZE && data@.subrange(0, METADATA_SIZE as int) == metadata_bytes(hd, m)
                    && hd.spec_index_size() == borsh_index_encoding(m).len() && hd.spec_index_size() > 0
                    && borsh_index_encoding(m).len() <= INDEX_BLOCK_SIZE && m.dom().finite()
                    && m.dom().len() <= u32::MAX) implies header == hd && index@ == m by {
                lemma_metadata_header(data@, hd, m);
                lemma_metadata_index(data@, hd, m);
                assert(rest@.subrange(0, size as int) == borsh_index_encoding(m));
            }
        }
        Ok((header, index))
    }

    /// A new storage file at `path`: `header` (recording the size of the
    /// encoded empty index) followed by the index block of an empty index.
    pub fn create(path: &str, header: Header) -> (st: Self)
        ensures
            st.spec_path() == path@,
            st.spec_header() == header.with_index_size(4),
            st.spec_index() == Map::<[u8; 32], (u64, u64)>::empty(),
            st.contents() == metadata_bytes(st.spec_header(), st.spec_index()),
            st.contents().len() == METADATA_SIZE,
            st.pending().len() == 2,
            st.pending()[0] is Create,
            st.pending()[1] matches FileOp::Append(b) && b@ == st.contents(),
    {
        let mut header = header;
        let index = Index::new();
        let index_bytes = index.to_bytes();
        let n = match &index_bytes {
            Ok(b) => b.len(),
            Err(_) => 0,
        };
        header.set_index_size(n as u32);
        let mut bytes: Vec<u8> = Vec::new();
        let r = Self::write_metadata_to_file(&mut bytes, &header, &index);
        proof {
            header.lemma_bytes_len();
            assert(r is Ok);
        }
        let file = FileImage::created(bytes);
        Storage { path: String::from_str(path), header, index, file }
    }

    /// The storage file at `path` whose bytes are `contents`: its header and
    /// index are read from the start of the file.
    pub fn open(path: &str, contents: Vec<u8>) -> (r: Result<Self, VartaError>)
        ensures
            r matches Ok(st) ==> {
                &&& st.spec_path() == path@
                &&& st.contents() == contents@
                &&& st.on_disk() == contents@
                &&& st.pending().len() == 0
                &&& st.spec_header().fields_match(contents@)
                &&& contents@.len() >= METADATA_SIZE
                &&& (st.spec_header().spec_index_size() == 0 ==> st.spec_index() == Map::<[u8; 32], (u64, u64)>::empty())
                &&& (st.spec_header().spec_index_size() > 0 ==> borsh_index_decoding(
                    contents@.subrange(FILE_HEADER_SIZE as int, FILE_HEADER_SIZE + st.spec_header().spec_index_size()),
                ) == Some(st.spec_index()))
            },
            forall|hd: Header, m: Map<[u8; 32], (u64, u64)>|
                #![trigger metadata_bytes(hd, m)]
                (contents@.len() >= METADATA_SIZE && contents@.subrange(0, METADATA_SIZE as int) == metadata_bytes(hd, m)
                    && hd.spec_index_size() == borsh_index_encoding(m).len() && hd.spec_index_size() > 0
                    && borsh_index_encoding(m).len() <= INDEX_BLOCK_SIZE && m.dom().finite()
                    && m.dom().len() <= u32::MAX) ==> (r matches Ok(st) && st.spec_header() == hd
                    && st.spec_index() == m),
    {
        let (header, index) = match Self::read_metadata_from_file(contents.as_slice()) {
            Ok(p) => p,
            Err(e) => {
                return Err(e);
            },
        };
        let n = contents.len();
        assert(n as int <= u64::MAX);
        let file = FileImage::loaded(contents);
        Ok(Storage { path: String::from_str(path), header, index, file })
    }

    /// Everything after the file header.
    pub fn read_binary(&self) -> (data: Vec<u8>)
        ensures
            self.contents().len() >= FILE_HEADER_SIZE ==> data@ == self.contents().subrange(
                FILE_HEADER_SIZE as int,
                self.contents().len() as int,
            ),
            self.contents().len() < FILE_HEADER_SIZE ==> data@.len() == 0,
    {
        if self.file.len() < FILE_HEADER_SIZE as u64 {
            return Vec::new();
        }
        self.file.read_from(FILE_HEADER_SIZE)
    }

    /// SHA-256 of the whole file.
    pub fn integrity(&self) -> (digest: [u8; 32])
        ensures
            digest@ == sha256(self.contents()),
    {
        sha256_digest(self.file.as_slice())
    }

    /// HMAC-SHA-256 under `key` of everything after the file header.
    pub fn compute_mac(&self, key: &[u8; 32]) -> (mac: [u8; 32])
        ensures
            self.contents().len() >= FILE_HEADER_SIZE ==> mac@ == hmac_sha256(
                key@,
                self.contents().subrange(FILE_HEADER_SIZE as int, self.contents().len() as int),
            ),
            self.contents().len() < FILE_HEADER_SIZE ==> mac@ == hmac_sha256(key@, Seq::empty()),
    {
        let data = self.read_binary();
        proof {
            if self.contents().len() < FILE_HEADER_SIZE {
                assert(data@ =~= Seq::<u8>::empty());
            }
        }
        hmac_sha256_tag(key, data.as_slice())
    }

    /// Whether the MAC under `key` equals `expected_mac`.
    pub fn verify_mac(&self, key: &[u8; 32], expected_mac: &[u8; 32]) -> (ok: bool)
        ensures
            self.contents().len() >= FILE_HEADER_SIZE ==> ok == (hmac_sha256(
                key@,
                self.contents().subrange(FILE_HEADER_SIZE as int, self.contents().len() as int),
            ) == expected_mac@),
    {
        let computed_mac = self.compute_mac(key);
        arrays32_equal(&computed_mac, expected_mac)
    }

    /// Whether a block is stored under `index`.
    pub fn has_block(&self, index: &[u8; 32]) -> (b: bool)
        ensures
            b == self.spec_index().dom().contains(*index),
    {
        self.index.contains_key(index)
    }

    pub fn header(&self) -> (h: &Header)
        ensures
            *h == self.spec_header(),
    {
        &self.header
    }

    /// Wipes the header's MAC, sealed metadata and reserved bytes and drops
    /// every index entry; the file image is left as it is.
    pub fn wipe(&mut self)
        ensures
            final(self).spec_index() == Map::<[u8; 32], (u64, u64)>::empty(),
            final(self).spec_header().spec_mac() == Seq::new(32, |i: int| 0u8),
            final(self).spec_header().spec_metadata_nonce() == Seq::new(12, |i: int| 0u8),
            final(self).spec_header().spec_metadata_ciphertext() == Seq::new(97, |i: int| 0u8),
            final(self).spec_header().spec_metadata_tag() == Seq::new(16, |i: int| 0u8),
            final(self).contents() == old(self).contents(),
            final(self).spec_path() == old(self).spec_path(),
    {
        self.header.wipe();
        self.index.wipe();
    }

    pub fn header_mut(&mut self) -> (h: &mut Header)
        ensures
            *h == old(self).spec_header(),
            final(self).spec_header() == *final(h),
            final(self).spec_index() == old(self).spec_index(),
            final(self).contents() == old(self).contents(),
            final(self).on_disk() == old(self).on_disk(),
            final(self).pending() == old(self).pending(),
            final(self).spec_path() == old(self).spec_path(),
    {
        &mut self.header
    }

    pub fn path(&self) -> (p: &str)
        ensures
            p@ == self.spec_path(),
    {
        self.path.as_str()
    }

    /// Length of the file.
    pub fn size(&self) -> (n: u64)
        ensures
            n == self.contents().len(),
    {
        self.file.len()
    }

    /// Hands out the file effects not yet handed out; carried out in order on
    /// the file as it was, they leave it holding `contents()`.
    pub fn take_pending(&mut self) -> (ops: Vec<FileOp>)
        ensures
            ops@ == old(self).pending(),
            apply_ops(old(self).on_disk(), ops@) == old(self).contents(),
            final(self).contents() == old(self).contents(),
            final(self).on_disk() == old(self).contents(),
            final(self).pending().len() == 0,
            final(self).spec_header() == old(self).spec_header(),
            final(self).spec_index() == old(self).spec_index(),
            final(self).spec_path() == old(self).spec_path(),
    {
        self.file.take_pending()
    }

    /// Appends `data` to the file and flushes it.
    pub fn append(&mut self, data: &[u8]) -> (r: Result<(), VartaError>)
        ensures
            r is Ok <==> old(self).contents().len() + data@.len() <= u64::MAX,
            !(r is Ok) ==> (r matches Err(VartaError::FileTooLarge) && *final(self) == *old(self)),
            r is Ok ==> final(self).contents() == old(self).contents() + data@,
            final(self).spec_header() == old(self).spec_header(),
            final(self).spec_index() == old(self).spec_index(),
            final(self).spec_path() == old(self).spec_path(),
            final(self).on_disk() == old(self).on_disk(),
    {
        let n = data.len();
        assert(n as int <= u64::MAX);
        if data.len() as u64 > u64::MAX - self.file.len() {
            return Err(VartaError::FileTooLarge);
        }
        let mut bytes: Vec<u8> = Vec::new();
        push_slice(&mut bytes, data);
        self.file.append(bytes);
        self.file.sync();
        Ok(())
    }

    /// Writes the header at the start of the file and flushes it.
    pub fn update_header(&mut self)
        ensures
            final(self).contents() == write_at(old(self).contents(), 0, old(self).spec_header().spec_bytes()),
            final(self).spec_header() == old(self).spec_header(),
            final(self).spec_index() == old(self).spec_index(),
            final(self).spec_path() == old(self).spec_path(),
            final(self).on_disk() == old(self).on_disk(),
    {
        let mut bytes: Vec<u8> = Vec::new();
        write_header(&mut bytes, &self.header);
        proof {
            self.header.lemma_bytes_len();
        }
        self.file.write_at(0, bytes);
        self.file.sync();
    }

    /// Records the size of the encoded index in the header, then rewrites the
    /// header and the index block at the start of the file and flushes it.
    /// When the encoded index does not fit into its block, only the header is
    /// rewritten.
    pub fn update_metadata(&mut self) -> (r: Result<(), VartaError>)
        ensures
            final(self).spec_index() == old(self).spec_index(),
            final(self).spec_path() == old(self).spec_path(),
            final(self).on_disk() == old(self).on_disk(),
            old(self).spec_index().dom().len() > u32::MAX ==> (r matches Err(VartaError::IndexEncodeFailed)
                && final(self).contents() == old(self).contents() && final(self).spec_header()
                == old(self).spec_header()),
            old(self).spec_index().dom().len() <= u32::MAX ==> {
                let enc = borsh_index_encoding(old(self).spec_index());
                let h = old(self).spec_header().with_index_size(enc.len() as u32);
                &&& enc.len() == 4 + 48 * old(self).spec_index().dom().len()
                &&& final(self).spec_header() == h
                &&& enc.len() > INDEX_BLOCK_SIZE ==> (r matches Err(VartaError::IndexTooLarge(n)) && n
                    == enc.len() && final(self).contents() == write_at(old(self).contents(), 0, h.spec_bytes()))
                &&& enc.len() <= INDEX_BLOCK_SIZE ==> (r is Ok && final(self).contents() == write_at(
                    write_at(old(self).contents(), 0, h.spec_bytes()),
                    FILE_HEADER_SIZE as int,
                    index_block(old(self).spec_index()),
                ))
            },
            r is Ok <==> Storage::index_fits(old(self).spec_index()),
            final(self).pending().len() >= old(self).pending().len(),
            final(self).pending().subrange(0, old(self).pending().len() as int) == old(self).pending(),
            r is Ok ==> metadata_writes(
                final(self).pending().subrange(old(self).pending().len() as int, final(self).pending().len() as int),
                final(self).spec_header(),
                final(self).spec_index(),
            ),
            r is Ok ==> final(self).spec_index().dom().finite(),
            r is Ok && old(self).contents().len() >= METADATA_SIZE ==> final(self).metadata_in_file(),
            r is Ok && old(self).contents().len() >= METADATA_SIZE ==> {
                &&& final(self).contents().len() == old(self).contents().len()
                &&& final(self).contents().subrange(0, METADATA_SIZE as int) == metadata_bytes(
                    final(self).spec_header(),
                    final(self).spec_index(),
                )
                &&& final(self).contents().subrange(METADATA_SIZE as int, final(self).contents().len() as int)
                    == old(self).contents().subrange(METADATA_SIZE as int, old(self).contents().len() as int)
                &&& final(self).spec_header().spec_index_size() == borsh_index_encoding(final(self).spec_index()).len()
                &&& final(self).spec_header().spec_index_size() > 0
            },
    {
        let ghost c0 = self.contents();
        let ghost p0 = self.pending();
        let index_bytes = match self.index.to_bytes() {
            Ok(b) => b,
            Err(e) => {
                return Err(e);
            },
        };
        self.header.set_index_size(index_bytes.len() as u32);
        let mut hb: Vec<u8> = Vec::new();
        write_header(&mut hb, &self.header);
        proof {
            self.header.lemma_bytes_len();
        }
        self.file.write_at(0, hb);
        let mut ib: Vec<u8> = Vec::new();
        match write_index(&mut ib, &self.index) {
            Ok(()) => {},
            Err(e) => {
                proof {
                    assert(self.pending().subrange(0, p0.len() as int) =~= p0);
                }
                return Err(e);
            },
        }
        self.file.write_at(FILE_HEADER_SIZE as u64, ib);
        self.file.sync();
        proof {
            assert(self.pending().subrange(0, p0.len() as int) =~= p0);
            let added = self.pending().subrange(p0.len() as int, self.pending().len() as int);
            assert(added[0] == self.pending()[p0.len() as int]);
            assert(added[1] == self.pending()[p0.len() + 1int]);
            assert(added[2] == self.pending()[p0.len() + 2int]);
            if c0.len() >= METADATA_SIZE {
                let h = self.spec_header();
                h.lemma_bytes_len();
                lemma_rewrite_metadata(c0, h.spec_bytes(), index_block(self.spec_index()));
                assert(self.contents().subrange(0, METADATA_SIZE as int) =~= metadata_bytes(h, self.spec_index()));
                assert(self.contents().subrange(METADATA_SIZE as int, self.contents().len() as int) =~= c0.subrange(
                    METADATA_SIZE as int,
                    c0.len() as int,
                ));
            }
        }
        Ok(())
    }

    /// Appends `block` at the end of the file under the key `index`, records
    /// its place in the index and rewrites the metadata. Hands back the
    /// block's offset.
    pub fn add_block(&mut self, block: Block, index: [u8; 32]) -> (r: Result<u64, VartaError>)
        ensures
            final(self).spec_path() == old(self).spec_path(),
            final(self).on_disk() == old(self).on_disk(),
            old(self).contents().len() + block.spec_size() > u64::MAX ==> (r matches Err(VartaError::FileTooLarge)
                && *final(self) == *old(self)),
            old(self).contents().len() + block.spec_size() <= u64::MAX ==> {
                let off = old(self).contents().len() as u64;
                let m = old(self).spec_index().insert(index, (off, block.spec_size() as u64));
                &&& final(self).spec_index() == m
                &&& (r is Ok <==> Storage::index_fits(m))
                &&& (r matches Ok(o) ==> o == off)
                &&& (r is Ok && old(self).contents().len() >= METADATA_SIZE ==> {
                    &&& final(self).stored_bytes(index) == Some(block.spec_bytes())
                    &&& final(self).contents() == metadata_bytes(final(self).spec_header(), m)
                        + old(self).contents().subrange(METADATA_SIZE as int, old(self).contents().len() as int)
                        + block.spec_bytes()
                })
            },
    {
        let offset = self.file.len();
        let bytes = block.to_bytes();
        let block_size = block.size() as u64;
        if block_size > u64::MAX - offset {
            return Err(VartaError::FileTooLarge);
        }
        let ghost before = self.contents();
        match self.append(bytes.as_slice()) {
            Ok(()) => {},
            Err(e) => {
                return Err(e);
            },
        }
        let ghost after_append = self.contents();
        self.index.insert(index, offset, block_size);
        let r = self.update_metadata();
        proof {
            if r is Ok && before.len() >= METADATA_SIZE {
                let h = self.spec_header();
                let m = self.spec_index();
                h.lemma_bytes_len();
                lemma_rewrite_metadata(after_append, h.spec_bytes(), index_block(m));
                let c = self.contents();
                assert(after_append.subrange(METADATA_SIZE as int, after_append.len() as int) =~= before.subrange(
                    METADATA_SIZE as int,
                    before.len() as int,
                ) + bytes@);
                assert(c =~= metadata_bytes(h, m) + before.subrange(METADATA_SIZE as int, before.len() as int)
                    + bytes@);
                assert(c.subrange(offset as int, offset + block_size) =~= bytes@);
            }
        }
        match r {
            Ok(()) => Ok(offset),
            Err(e) => Err(e),
        }
    }

    /// Reads the block stored under `index`.
    pub fn get_block(&self, index: &[u8; 32]) -> (r: Result<Block, VartaError>)
        ensures
            !self.spec_index().dom().contains(*index) ==> r matches Err(VartaError::BlockNotFound),
            self.spec_index().dom().contains(*index) && self.stored_bytes(*index) is None ==> r matches Err(
                VartaError::UnexpectedEof,
            ),
            self.stored_bytes(*index) matches Some(bytes) ==> {
                &&& (r is Ok <==> Block::parses(bytes))
                &&& (r matches Ok(b) ==> b.read_from(bytes) && b.wf())
                &&& (bytes.len() < super::components::block::MIN_BLOCK_SIZE ==> (r matches Err(VartaError::BlockTooShort(n))
                    && n == bytes.len()))
            },
    {
        let (offset, size) = match self.index.get(index) {
            Some(v) => *v,
            None => {
                return Err(VartaError::BlockNotFound);
            },
        };
        let len = self.file.len();
        if offset > len || size > len - offset {
            return Err(VartaError::UnexpectedEof);
        }
        let n = self.file.as_slice().len();
        let buffer = self.file.read(offset as usize, size as usize);
        Block::from_bytes(buffer.as_slice())
    }

    /// Removes the block stored under `index`: overwrites its bytes with
    /// zeros, drops it from the index and rewrites the metadata.
    pub fn del_block(&mut self, index: &[u8; 32]) -> (r: Result<(), VartaError>)
        ensures
            final(self).spec_path() == old(self).spec_path(),
            final(self).on_disk() == old(self).on_disk(),
            !old(self).spec_index().dom().contains(*index) ==> (r matches Err(VartaError::BlockNotFound)
                && *final(self) == *old(self)),
            old(self).stored_bytes(*index) is Some ==> (r is Ok <==> Storage::index_fits(
                old(self).spec_index().remove(*index),
            )),
            old(self).spec_index().dom().contains(*index) ==> {
                let (off, len) = old(self).spec_index()[*index];
                &&& (off + len > u64::MAX || len > usize::MAX) ==> (r matches Err(VartaError::FileTooLarge)
                    && *final(self) == *old(self))
                &&& (off + len <= u64::MAX && len <= usize::MAX) ==> {
                    &&& final(self).spec_index() == old(self).spec_index().remove(*index)
                    &&& (r is Ok <==> Storage::index_fits(final(self).spec_index()))
                    &&& old(self).contents().len() >= METADATA_SIZE ==> final(self).contents().len()
                        >= old(self).contents().len()
                    &&& forall|i: int|
                        METADATA_SIZE <= i < old(self).contents().len() && (i < off || off + len <= i)
                            ==> #[trigger] final(self).contents()[i] == old(self).contents()[i]
                    &&& (r is Ok && old(self).contents().len() >= METADATA_SIZE && off >= METADATA_SIZE
                        ==> final(self).contents() == metadata_bytes(final(self).spec_header(), final(self).spec_index())
                        + write_at(old(self).contents(), off as int, Seq::new(len as nat, |i: int| 0u8)).subrange(
                        METADATA_SIZE as int,
                        write_at(old(self).contents(), off as int, Seq::new(len as nat, |i: int| 0u8)).len() as int,
                    ))
                }
            },
    {
        let (offset, size) = match self.index.get(index) {
            Some(v) => *v,
            None => {
                return Err(VartaError::BlockNotFound);
            },
        };
        // The image's length, a `usize`, bounds every block that it holds.
        let image_len = self.file.as_slice().len();
        assert(image_len == self.contents().len());
        if size > u64::MAX - offset || size > usize::MAX as u64 {
            return Err(VartaError::FileTooLarge);
        }
        let ghost before = self.contents();
        let zeros = filled(0u8, size as usize);
        self.file.write_at(offset, zeros);
        self.file.sync();
        let ghost after_write = self.contents();
        self.index.remove(index);
        let r = self.update_metadata();
        proof {
            super::file::lemma_write_at(before, offset as int, Seq::new(size as nat, |i: int| 0u8));
            let h = self.spec_header();
            let m = self.spec_index();
            h.lemma_bytes_len();
            super::file::lemma_write_at(after_write, 0, h.spec_bytes());
            if r is Ok {
                let w = write_at(after_write, 0, h.spec_bytes());
                super::file::lemma_write_at(w, FILE_HEADER_SIZE as int, index_block(m));
                if before.len() >= METADATA_SIZE {
                    lemma_rewrite_metadata(after_write, h.spec_bytes(), index_block(m));
                }
            }
        }
        r
    }

    /// Removes the block stored under `index` after overwriting its bytes
    /// three times (zeros, then 0xFF, then random bytes), drops it from the
    /// index and rewrites the metadata.
    pub fn secure_del_block(&mut self, index: &[u8; 32]) -> (r: Result<(), VartaError>)
        ensures
            final(self).spec_path() == old(self).spec_path(),
            final(self).on_disk() == old(self).on_disk(),
            !old(self).spec_index().dom().contains(*index) ==> (r matches Err(VartaError::BlockNotFound)
                && *final(self) == *old(self)),
            old(self).stored_bytes(*index) is Some ==> (r is Ok <==> Storage::index_fits(
                old(self).spec_index().remove(*index),
            )),
            old(self).spec_index().dom().contains(*index) ==> {
                let (off, len) = old(self).spec_index()[*index];
                &&& (off + len > u64::MAX || len > usize::MAX) ==> (r matches Err(VartaError::FileTooLarge)
                    && *final(self) == *old(self))
                &&& (off + len <= u64::MAX && len <= usize::MAX) ==> {
                    &&& final(self).spec_index() == old(self).spec_index().remove(*index)
                    &&& (r is Ok <==> Storage::index_fits(final(self).spec_index()))
                    &&& old(self).contents().len() >= METADATA_SIZE ==> final(self).contents().len() == if off + len > old(self).contents().len() {
                        (off + len) as int
                    } else {
                        old(self).contents().len() as int
                    }
                    &&& (r is Ok && old(self).contents().len() >= METADATA_SIZE ==> final(self).contents().subrange(
                        0,
                        METADATA_SIZE as int,
                    ) == metadata_bytes(final(self).spec_header(), final(self).spec_index()))
                    &&& forall|i: int|
                        METADATA_SIZE <= i < old(self).contents().len() && (i < off || off + len <= i)
                            ==> #[trigger] final(self).contents()[i] == old(self).contents()[i]
                    &&& final(self).pending().len() >= old(self).pending().len() + 6
                    &&& final(self).pending().subrange(0, old(self).pending().len() as int) == old(self).pending()
                    &&& three_pass_overwrite(
                        final(self).pending().subrange(
                            old(self).pending().len() as int,
                            old(self).pending().len() + 6int,
                        ),
                        off,
                        len as nat,
                    )
                    &&& (old(self).contents().len() >= METADATA_SIZE && off >= METADATA_SIZE) ==> (final(self).pending()[old(self).pending().len() + 4int] matches FileOp::WriteAt(o, b)
                        && final(self).contents().subrange(off as int, off + len) == b@)
                    &&& r is Ok ==> metadata_writes(
                        final(self).pending().subrange(
                            old(self).pending().len() + 6int,
                            final(self).pending().len() as int,
                        ),
                        final(self).spec_header(),
                        final(self).spec_index(),
                    )
                }
            },
    {
        let (offset, size) = match self.index.get(index) {
            Some(v) => *v,
            None => {
                return Err(VartaError::BlockNotFound);
            },
        };
        // The image's length, a `usize`, bounds every block that it holds.
        let image_len = self.file.as_slice().len();
        assert(image_len == self.contents().len());
        if size > u64::MAX - offset || size > usize::MAX as u64 {
            return Err(VartaError::FileTooLarge);
        }
        let ghost p0 = self.pending();
        let ghost c0 = self.contents();
        let ghost z = Seq::new(size as nat, |i: int| 0u8);
        let ghost f = Seq::new(size as nat, |i: int| 0xFFu8);
        let zeros = filled(0x00u8, size as usize);
        self.file.write_at(offset, zeros);
        self.file.sync();
        let ghost c1 = self.contents();
        let ones = filled(0xFFu8, size as usize);
        self.file.write_at(offset, ones);
        self.file.sync();
        let ghost c2 = self.contents();
        let random_data = thread_random_bytes(size as usize);
        let ghost rv = random_data@;
        self.file.write_at(offset, random_data);
        self.file.sync();
        let ghost c3 = self.contents();
        let ghost p6 = self.pending();
        self.index.remove(index);
        let r = self.update_metadata();
        proof {
            assert(p6.subrange(0, p0.len() as int) =~= p0);
            assert(self.pending().subrange(0, p0.len() as int) =~= p0) by {
                assert(self.pending().subrange(0, p6.len() as int) == p6);
                assert forall|j: int| 0 <= j < p0.len() implies self.pending()[j] == p0[j] by {
                    assert(self.pending()[j] == self.pending().subrange(0, p6.len() as int)[j]);
                }
            }
            let six = self.pending().subrange(p0.len() as int, p0.len() + 6int);
            assert forall|j: int| 0 <= j < 6 implies six[j] == p6[p0.len() as int + j] by {
                assert(self.pending()[p0.len() as int + j] == self.pending().subrange(0, p6.len() as int)[p0.len() as int + j]);
            }
            assert(p6[p0.len() + 4int] == FileOp::WriteAt(offset, random_data));
            assert(self.pending()[p0.len() + 4int] == p6[p0.len() + 4int]);
            assert(self.pending().subrange(p0.len() + 6int, self.pending().len() as int) =~= self.pending().subrange(
                p6.len() as int,
                self.pending().len() as int,
            ));
            super::file::lemma_write_at(c0, offset as int, z);
            super::file::lemma_write_at(c1, offset as int, f);
            super::file::lemma_write_at(c2, offset as int, rv);
            let h = self.spec_header();
            let m = self.spec_index();
            h.lemma_bytes_len();
            let w = write_at(c3, 0, h.spec_bytes());
            super::file::lemma_write_at(c3, 0, h.spec_bytes());
            if r is Ok {
                super::file::lemma_write_at(w, FILE_HEADER_SIZE as int, index_block(m));
                if c0.len() >= METADATA_SIZE {
                    lemma_rewrite_metadata(c3, h.spec_bytes(), index_block(m));
                    assert(self.contents().subrange(0, METADATA_SIZE as int) =~= metadata_bytes(h, m));
                }
            }
        }
        r
    }

    /// Stores `block` under the key `index`: in place when a block of the
    /// same size is already stored there, else by securely deleting the old
    /// block (if any) and appending. Hands back the block's offset.
    pub fn upd_block(&mut self, block: Block, index: [u8; 32]) -> (r: Result<u64, VartaError>)
        ensures
            final(self).spec_path() == old(self).spec_path(),
            final(self).on_disk() == old(self).on_disk(),
            r matches Ok(off) ==> final(self).spec_index().dom().contains(index) && final(self).spec_index()[index]
                == (off, block.spec_size() as u64),
            r is Ok && old(self).contents().len() >= METADATA_SIZE ==> final(self).stored_bytes(index) == Some(
                block.spec_bytes(),
            ),
            r is Ok && old(self).contents().len() >= METADATA_SIZE ==> final(self).contents().len() >= METADATA_SIZE,
            old(self).spec_index().dom().contains(index) && old(self).spec_index()[index].1 == block.spec_size()
                ==> {
                let (off, len) = old(self).spec_index()[index];
                &&& off + len > u64::MAX ==> (r matches Err(VartaError::FileTooLarge) && *final(self)
                    == *old(self))
                &&& off + len <= u64::MAX ==> (r == Ok::<u64, VartaError>(off) && final(self).contents()
                    == write_at(old(self).contents(), off as int, block.spec_bytes()) && final(self).spec_index()
                    == old(self).spec_index() && final(self).spec_header() == old(self).spec_header())
            },
            !old(self).spec_index().dom().contains(index) ==> (r is Ok <==> (old(self).contents().len()
                + block.spec_size() <= u64::MAX && Storage::index_fits(
                old(self).spec_index().insert(index, (old(self).contents().len() as u64, block.spec_size() as u64)),
            ))),
            old(self).stored_bytes(index) is Some && old(self).spec_index()[index].1 == block.spec_size() ==> r
                == Ok::<u64, VartaError>(old(self).spec_index()[index].0),
            r is Ok && old(self).contents().len() >= METADATA_SIZE ==> {
                &&& final(self).spec_index().remove(index) == old(self).spec_index().remove(index)
                &&& final(self).contents().len() >= old(self).contents().len()
                &&& forall|i: int|
                    METADATA_SIZE <= i < old(self).contents().len() && old(self).outside_block(index, i)
                        ==> #[trigger] final(self).contents()[i] == old(self).contents()[i]
            },
            r is Ok && old(self).contents().len() >= METADATA_SIZE && !(old(self).spec_index().dom().contains(index)
                && old(self).spec_index()[index].1 == block.spec_size()) ==> r->Ok_0 >= old(self).contents().len(),
            r is Ok && old(self).contents().len() >= METADATA_SIZE && !(old(self).spec_index().dom().contains(index)
                && old(self).spec_index()[index].1 == block.spec_size()) && (old(self).stored_bytes(index) is Some
                || !old(self).spec_index().dom().contains(index)) ==> r->Ok_0 == old(self).contents().len()
                && final(self).contents().len() == old(self).contents().len() + block.spec_size(),
    {
        let new_size = block.size() as u64;
        match self.index.get(&index) {
            Some(entry) => {
                let (offset, old_size) = *entry;
                if new_size == old_size {
                    // The image's length, a `u64`, bounds every block that it holds.
                    let image_len = self.file.len();
                    assert(image_len == self.contents().len());
                    if old_size > u64::MAX - offset {
                        return Err(VartaError::FileTooLarge);
                    }
                    let bytes = block.to_bytes();
                    let ghost c = self.contents();
                    self.file.write_at(offset, bytes);
                    self.file.sync();
                    proof {
                        super::file::lemma_write_at(c, offset as int, bytes@);
                    }
                    Ok(offset)
                } else {
                    match self.secure_del_block(&index) {
                        Ok(()) => {},
                        Err(e) => {
                            return Err(e);
                        },
                    }
                    let ghost mid = *self;
                    let r = self.add_block(block, index);
                    proof {
                        if r is Ok && old(self).contents().len() >= METADATA_SIZE {
                            let c1 = mid.contents();
                            self.spec_header().lemma_bytes_len();
                            assert(metadata_bytes(self.spec_header(), self.spec_index()).len() == METADATA_SIZE);
                            assert(mid.spec_index().remove(index) =~= old(self).spec_index().remove(index));
                            assert(self.spec_index().remove(index) =~= mid.spec_index().remove(index));
                            assert forall|i: int|
                                METADATA_SIZE <= i < old(self).contents().len() && old(self).outside_block(index, i)
                                    implies #[trigger] self.contents()[i] == old(self).contents()[i] by {
                                assert(self.contents()[i] == c1.subrange(METADATA_SIZE as int, c1.len() as int)[i
                                    - METADATA_SIZE]);
                                assert(c1[i] == old(self).contents()[i]);
                            }
                        }
                    }
                    r
                }
            },
            None => {
                let r = self.add_block(block, index);
                proof {
                    if r is Ok && old(self).contents().len() >= METADATA_SIZE {
                        let c0 = old(self).contents();
                        self.spec_header().lemma_bytes_len();
                        assert(metadata_bytes(self.spec_header(), self.spec_index()).len() == METADATA_SIZE);
                        assert(self.spec_index().remove(index) =~= old(self).spec_index().remove(index));
                        assert forall|i: int|
                            METADATA_SIZE <= i < c0.len() && old(self).outside_block(index, i)
                                implies #[trigger] self.contents()[i] == c0[i] by {
                            assert(self.contents()[i] == c0.subrange(METADATA_SIZE as int, c0.len() as int)[i
                                - METADATA_SIZE]);
                        }
                    }
                }
                r
            },
        }
    }

    /// Truncates the file, writes the header, records in the header the MAC
    /// (under the all-zero key) of what then follows the header, and appends
    /// `data`; then flushes the file.
    pub fn write(&mut self, data: &[u8]) -> (r: Result<(), VartaError>)
        ensures
            final(self).spec_path() == old(self).spec_path(),
            final(self).on_disk() == old(self).on_disk(),
            final(self).spec_index() == old(self).spec_index(),
            r is Ok ==> final(self).spec_header() == old(self).spec_header().with_mac(
                final(self).spec_header().spec_mac_array(),
            ),
            r is Ok ==> final(self).spec_header().spec_mac() == hmac_sha256(Seq::new(32, |i: int| 0u8), Seq::empty()),
            r is Ok <==> data@.len() + FILE_HEADER_SIZE <= u64::MAX,
            !(r is Ok) ==> (r matches Err(VartaError::FileTooLarge) && *final(self) == *old(self)),
            r is Ok ==> final(self).contents() == old(self).spec_header().spec_bytes() + data@,
    {
        let n = data.len();
        assert(n as int <= u64::MAX);
        if data.len() as u64 > u64::MAX - FILE_HEADER_SIZE as u64 {
            return Err(VartaError::FileTooLarge);
        }
        self.file.truncate();
        let mut hb: Vec<u8> = Vec::new();
        write_header(&mut hb, &self.header);
        proof {
            self.header.lemma_bytes_len();
        }
        let ghost empty = self.contents();
        self.file.write_at(0, hb);
        proof {
            assert(self.contents() =~= old(self).spec_header().spec_bytes());
        }
        let zero_key = [0u8; 32];
        let mac = self.compute_mac(&zero_key);
        proof {
            assert(zero_key@ =~= Seq::new(32, |i: int| 0u8));
            assert(self.contents().subrange(FILE_HEADER_SIZE as int, self.contents().len() as int) =~= Seq::<u8>::empty());
        }
        self.header.set_mac(mac);
        let mut bytes: Vec<u8> = Vec::new();
        push_slice(&mut bytes, data);
        self.file.append(bytes);
        self.file.sync();
        Ok(())
    }

    /// Removes the file: hands back the pending effects followed by the removal.
    pub fn delete(self) -> (ops: Vec<FileOp>)
        ensures
            ops@ == self.pending().push(FileOp::Remove),
    {
        let mut st = self;
        let mut ops = st.file.take_pending();
        ops.push(FileOp::Remove);
        ops
    }

    /// Overwrites the whole file with random bytes in 4 KiB chunks, flushes
    /// it, then removes it: hands back the pending effects followed by these.
    pub fn secure_delete(self) -> (ops: Vec<FileOp>)
        ensures
            ops@.len() >= self.pending().len() + 2,
            ops@.subrange(0, self.pending().len() as int) == self.pending(),
            ops@[ops@.len() - 2] is Sync,
            ops@[ops@.len() - 1] is Remove,
            forall|i: int|
                self.pending().len() <= i < ops@.len() - 2 ==> (#[trigger] ops@[i] matches FileOp::WriteAt(off, b)
                    && off == (i - self.pending().len()) * 4096 && b@.len() == if self.contents().len() - off
                    < 4096 {
                    self.contents().len() - off
                } else {
                    4096
                }),
            ops@.len() - 2 - self.pending().len() == (self.contents().len() + 4095) / 4096,
    {
        let mut st = self;
        let file_size = st.file.len();
        let ghost start = st.file.pending();
        let mut ops = st.file.take_pending();
        let mut remaining = file_size;
        let mut written: u64 = 0;
        while remaining > 0
            invariant
                written + remaining == file_size,
                file_size == self.contents().len(),
                ops@.len() >= start.len(),
                ops@.subrange(0, start.len() as int) == start,
                written % 4096 == 0 || remaining == 0,
                ops@.len() - start.len() == (written + 4095) / 4096,
                forall|i: int|
                    start.len() <= i < ops@.len() ==> (#[trigger] ops@[i] matches FileOp::WriteAt(off, b)
                        && off == (i - start.len()) * 4096 && b@.len() == if file_size - off < 4096 {
                        file_size - off
                    } else {
                        4096
                    }),
            decreases remaining,
        {
            let write_size = if remaining < 4096 {
                remaining
            } else {
                4096
            };
            let chunk = thread_random_bytes(write_size as usize);
            let ghost prev = ops@;
            ops.push(FileOp::WriteAt(written, chunk));
            proof {
                assert(ops@.subrange(0, start.len() as int) =~= prev.subrange(0, start.len() as int));
            }
            written = written + write_size;
            remaining = remaining - write_size;
        }
        ops.push(FileOp::Sync);
        ops.push(FileOp::Remove);
        ops
    }

    /// The keys of all stored blocks, each once.
    pub fn list_indices(&self) -> (keys: Vec<[u8; 32]>)
        ensures
            keys@.len() == self.spec_index().dom().len(),
            keys@.to_set() == self.spec_index().dom(),
            keys@.no_duplicates(),
    {
        let refs = self.index.keys();
        let mut keys: Vec<[u8; 32]> = Vec::new();
        let mut i: usize = 0;
        while i < refs.len()
            invariant
                i <= refs@.len(),
                keys@.len() == i,
                forall|j: int| 0 <= j < i ==> keys@[j] == *refs@[j],
            decreases refs@.len() - i,
        {
            keys.push(*refs[i]);
            i = i + 1;
        }
        proof {
            assert forall|k: [u8; 32]| keys@.to_set().contains(k) <==> self.spec_index().dom().contains(k) by {
                if self.spec_index().dom().contains(k) {
                    let j = choose|j: int| 0 <= j < refs@.len() && *refs@[j] == k;
                    assert(keys@[j] == k);
                }
            }
            assert(keys@.to_set() =~= self.spec_index().dom());
        }
        keys
    }

    /// The file begins with the header and the index block of this storage,
    /// the header records the size of the encoded index, and the index fits
    /// its block: a file that `open` reads back as this header and index.
    pub open spec fn metadata_in_file(self) -> bool {
        &&& self.contents().len() >= METADATA_SIZE
        &&& self.contents().subrange(0, METADATA_SIZE as int) == metadata_bytes(self.spec_header(), self.spec_index())
        &&& self.spec_header().spec_index_size() == borsh_index_encoding(self.spec_index()).len()
        &&& self.spec_header().spec_index_size() > 0
        &&& Storage::index_fits(self.spec_index())
        &&& self.spec_index().dom().finite()
    }

    /// Whether an index's encoding fits into the index block.
    pub open spec fn index_fits(m: Map<[u8; 32], (u64, u64)>) -> bool {
        m.dom().len() <= u32::MAX && borsh_index_encoding(m).len() <= INDEX_BLOCK_SIZE
    }

    /// A finite index fits into its block exactly when its entries (48 bytes
    /// each, after a 4-byte count) do.
    pub proof fn lemma_index_fits(m: Map<[u8; 32], (u64, u64)>)
        requires
            m.dom().finite(),
        ensures
            Storage::index_fits(m) <==> 4 + 48 * m.dom().len() <= INDEX_BLOCK_SIZE,
    {
        if m.dom().len() <= u32::MAX {
            lemma_index_encoding_roundtrip(m);
        }
    }
}

/// Rewriting the metadata of a file that holds at least the metadata area
/// leaves its length and every byte after the metadata area unchanged, and
/// puts the header and the index block in front.
pub proof fn lemma_rewrite_metadata(c: Seq<u8>, hb: Seq<u8>, ib: Seq<u8>)
    requires
        c.len() >= METADATA_SIZE,
        hb.len() == FILE_HEADER_SIZE,
        ib.len() == INDEX_BLOCK_SIZE,
    ensures
        write_at(write_at(c, 0, hb), FILE_HEADER_SIZE as int, ib) == hb + ib + c.subrange(
            METADATA_SIZE as int,
            c.len() as int,
        ),
{
    let w1 = write_at(c, 0, hb);
    super::file::lemma_write_at(c, 0, hb);
    super::file::lemma_write_at(w1, FILE_HEADER_SIZE as int, ib);
    let w2 = write_at(w1, FILE_HEADER_SIZE as int, ib);
    assert(w2 =~= hb + ib + c.subrange(METADATA_SIZE as int, c.len() as int));
}

/// A block that the index places under a key reads back as that block: the
/// bytes stored for it parse, and any block read from them has its header,
/// nonce and ciphertext.
pub proof fn lemma_stored_block_reads_back(st: Storage, key: [u8; 32], b: Block, g: Block)
    requires
        b.wf(),
        st.stored_bytes(key) == Some(b.spec_bytes()),
        g.read_from(b.spec_bytes()),
    ensures
        Block::parses(st.stored_bytes(key)->0),
        g.spec_header() == b.spec_header(),
        g.spec_nonce() == b.spec_nonce(),
        g.spec_ciphertext() == b.spec_ciphertext(),
{
    super::components::block::lemma_block_bytes_roundtrip(b, g);
}

} // verus!
