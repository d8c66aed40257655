//! Encrypted blocks: a block header, a nonce and an AES-256-GCM ciphertext.
use vstd::prelude::*;
use crate::bytes::{push_slice, fill_from};
use crate::error::VartaError;
use crate::crypto::primitives::{
    aes256_gcm_encrypt, aes256_gcm_decrypt, aes256_gcm_encryption, aes256_gcm_decryption,
    os_random_nonce, AES_GCM_MAX_PLAINTEXT,
};
use super::block_header::{
    block_magic,
    BlockHeader, BlockType, HEADER_SIZE, lemma_block_header_roundtrip,
    lemma_block_header_fields_determine, lemma_block_header_bytes_of_parse,
};

verus! {

broadcast use vstd::seq_lib::group_seq_properties;

pub const NONCE_SIZE: usize = 12;
pub const AUTH_TAG_SIZE: usize = 16;
/// Header, nonce and an empty plaintext's tag.
pub const MIN_BLOCK_SIZE: usize = 92;
/// Size of a padded block on disk.
pub const BLOCK_SIZE: usize = 1024;
/// Largest plaintext that fits into a padded block.
pub const MAX_PLAINTEXT_SIZE: usize = 932;

/// `plaintext` followed by zeros up to the padded plaintext size.
pub open spec fn padded(plaintext: Seq<u8>) -> Seq<u8> {
    plaintext + Seq::new((MAX_PLAINTEXT_SIZE - plaintext.len()) as nat, |i: int| 0u8)
}

/// A block's ciphertext: at least a tag long, and short enough that the whole
/// block's size is a `usize`.
struct Ciphertext {
    bytes: Vec<u8>,
}

impl Ciphertext {
    #[verifier::type_invariant]
    spec fn holds_tag(self) -> bool {
        &&& self.bytes@.len() >= AUTH_TAG_SIZE
        &&& self.bytes@.len() + HEADER_SIZE + NONCE_SIZE <= usize::MAX
    }
}

/// `bytes` are a padded block that seals `data` under `key`: a well-formed
/// block whose header records the size of `data` and whose ciphertext is the
/// encryption, under its own nonce, of `data` padded with zeros.
pub open spec fn seals_padded(bytes: Seq<u8>, key: Seq<u8>, data: Seq<u8>) -> bool {
    &&& Block::parses(bytes)
    &&& data.len() <= MAX_PLAINTEXT_SIZE
    &&& vstd::bytes::spec_u32_from_le_bytes(bytes.subrange(24, 28)) == data.len()
    &&& bytes.subrange(HEADER_SIZE + NONCE_SIZE, bytes.len() as int) == aes256_gcm_encryption(
        key,
        bytes.subrange(HEADER_SIZE as int, HEADER_SIZE + NONCE_SIZE),
        padded(data),
    )
}

pub struct Block {
    header: BlockHeader,
    nonce: [u8; 12],
    ciphertext: Ciphertext,
}

impl Block {
    pub closed spec fn spec_header(self) -> BlockHeader {
        self.header
    }

    pub closed spec fn spec_nonce(self) -> Seq<u8> {
        self.nonce@
    }

    pub closed spec fn spec_ciphertext(self) -> Seq<u8> {
        self.ciphertext.bytes@
    }

    /// The header carries the block magic and the ciphertext holds at least a tag.
    pub open spec fn wf(self) -> bool {
        &&& self.spec_header().spec_magic() == block_magic()
        &&& self.spec_ciphertext().len() >= AUTH_TAG_SIZE
    }

    /// The block on disk: header bytes, nonce, ciphertext.
    pub open spec fn spec_bytes(self) -> Seq<u8> {
        self.spec_header().spec_bytes() + self.spec_nonce() + self.spec_ciphertext()
    }

    pub open spec fn spec_size(self) -> int {
        HEADER_SIZE + NONCE_SIZE + self.spec_ciphertext().len()
    }

    /// The block that `data` encodes, when it encodes one.
    pub open spec fn parses(data: Seq<u8>) -> bool {
        data.len() >= MIN_BLOCK_SIZE && BlockHeader::parses(data)
    }

    pub open spec fn read_from(self, data: Seq<u8>) -> bool {
        &&& self.spec_header().fields_match(data)
        &&& self.spec_nonce() == data.subrange(HEADER_SIZE as int, HEADER_SIZE + NONCE_SIZE)
        &&& self.spec_ciphertext() == data.subrange(HEADER_SIZE + NONCE_SIZE, data.len() as int)
    }

    /// Encrypts `plaintext` under `key` with a fresh random nonce.
    pub fn encrypt(block_type: BlockType, key: &[u8; 32], plaintext: &[u8]) -> (r: Result<Self, VartaError>)
        ensures
            r is Ok <==> plaintext@.len() <= AES_GCM_MAX_PLAINTEXT && plaintext@.len() + MIN_BLOCK_SIZE
                <= usize::MAX,
            !(r is Ok) ==> r matches Err(VartaError::EncryptionFailed),
            r matches Ok(b) ==> {
                &&& b.spec_ciphertext() == aes256_gcm_encryption(key@, b.spec_nonce(), plaintext@)
                &&& b.spec_ciphertext().len() == plaintext@.len() + AUTH_TAG_SIZE
                &&& b.spec_size() == MIN_BLOCK_SIZE + plaintext@.len()
                &&& b.spec_header().spec_block_type() == block_type
                &&& b.spec_header().spec_plaintext_size() == plaintext@.len() as u32
                &&& b.spec_header().spec_flags() == 0
            },
    {
        if plaintext.len() as u64 > AES_GCM_MAX_PLAINTEXT || plaintext.len() > usize::MAX - MIN_BLOCK_SIZE {
            return Err(VartaError::EncryptionFailed);
        }
        let header = BlockHeader::new(block_type, plaintext.len() as u32);
        let nonce = os_random_nonce();
        let ciphertext = aes256_gcm_encrypt(key, &nonce, plaintext);
        Ok(Self { header, nonce, ciphertext: Ciphertext { bytes: ciphertext } })
    }

    /// Encrypts `plaintext` padded with zeros to the fixed block size, under
    /// `key` with a fresh random nonce; the header records the unpadded size.
    pub fn encrypt_padded(block_type: BlockType, key: &[u8; 32], plaintext: &[u8]) -> (r: Result<
        Self,
        VartaError,
    >)
        ensures
            r is Ok <==> plaintext@.len() <= MAX_PLAINTEXT_SIZE,
            plaintext@.len() > MAX_PLAINTEXT_SIZE ==> (r matches Err(VartaError::PlaintextTooLarge(n))
                && n == plaintext@.len()),
            r matches Ok(b) ==> {
                &&& seals_padded(b.spec_bytes(), key@, plaintext@)
                &&& b.wf()
                &&& b.spec_ciphertext() == aes256_gcm_encryption(key@, b.spec_nonce(), padded(plaintext@))
                &&& b.spec_header().spec_block_type() == block_type
                &&& b.spec_header().spec_plaintext_size() == plaintext@.len()
                &&& b.spec_header().spec_flags() == 0
                &&& b.spec_size() == BLOCK_SIZE
            },
    {
        if plaintext.len() > MAX_PLAINTEXT_SIZE {
            return Err(VartaError::PlaintextTooLarge(plaintext.len()));
        }
        let mut padded_plaintext: Vec<u8> = Vec::new();
        push_slice(&mut padded_plaintext, plaintext);
        while padded_plaintext.len() < MAX_PLAINTEXT_SIZE
            invariant
                padded_plaintext@.len() <= MAX_PLAINTEXT_SIZE,
                plaintext@.len() <= padded_plaintext@.len(),
                padded_plaintext@.subrange(0, plaintext@.len() as int) == plaintext@,
                forall|i: int|
                    plaintext@.len() <= i < padded_plaintext@.len() ==> padded_plaintext@[i] == 0u8,
            decreases MAX_PLAINTEXT_SIZE - padded_plaintext@.len(),
        {
            padded_plaintext.push(0u8);
        }
        assert(padded_plaintext@ =~= padded(plaintext@));
        let header = BlockHeader::new(block_type, plaintext.len() as u32);
        let nonce = os_random_nonce();
        let ciphertext = aes256_gcm_encrypt(key, &nonce, padded_plaintext.as_slice());
        let b = Self { header, nonce, ciphertext: Ciphertext { bytes: ciphertext } };
        proof {
            let bytes = b.spec_bytes();
            let hb = b.spec_header().spec_bytes();
            b.spec_header().lemma_bytes_len();
            lemma_block_header_roundtrip(b.spec_header(), hb);
            assert(bytes.subrange(0, HEADER_SIZE as int) =~= hb);
            assert(hb.subrange(0, 4) =~= bytes.subrange(0, 4));
            assert(hb.subrange(24, 28) =~= bytes.subrange(24, 28));
            assert(bytes.subrange(HEADER_SIZE as int, HEADER_SIZE + NONCE_SIZE) =~= b.spec_nonce());
            assert(bytes.subrange(HEADER_SIZE + NONCE_SIZE, bytes.len() as int) =~= b.spec_ciphertext());
        }
        Ok(b)
    }

    /// Decrypts the block and drops the padding beyond the size its header records.
    pub fn decrypt(&self, key: &[u8; 32]) -> (r: Result<Vec<u8>, VartaError>)
        ensures
            aes256_gcm_decryption(key@, self.spec_nonce(), self.spec_ciphertext()) is None ==> r matches Err(
                VartaError::DecryptionFailed,
            ),
            aes256_gcm_decryption(key@, self.spec_nonce(), self.spec_ciphertext()) matches Some(p) ==> {
                let n = self.spec_header().spec_plaintext_size();
                &&& n > p.len() ==> (r matches Err(VartaError::InvalidPlaintextSize(a, b)) && a == n
                    && b == p.len())
                &&& n <= p.len() ==> (r matches Ok(v) && v@ == p.subrange(0, n as int))
            },
            forall|m: Seq<u8>|
                m.len() <= AES_GCM_MAX_PLAINTEXT && self.spec_ciphertext() == aes256_gcm_encryption(
                    key@,
                    self.spec_nonce(),
                    m,
                ) && self.spec_header().spec_plaintext_size() <= m.len() ==> (r matches Ok(v) && v@
                    == m.subrange(0, self.spec_header().spec_plaintext_size() as int)),
            forall|bytes: Seq<u8>, data: Seq<u8>|
                #![trigger seals_padded(bytes, key@, data)]
                (self.read_from(bytes) && seals_padded(bytes, key@, data)) ==> (r matches Ok(v) && v@ == data),
    {
        let padded_plaintext = match aes256_gcm_decrypt(key, &self.nonce, self.ciphertext.bytes.as_slice()) {
            Some(p) => p,
            None => {
                return Err(VartaError::DecryptionFailed);
            },
        };
        let real_size = self.header.plaintext_size();
        if real_size as usize > padded_plaintext.len() || (real_size as u64) > (usize::MAX as u64) {
            return Err(VartaError::InvalidPlaintextSize(real_size, padded_plaintext.len()));
        }
        let mut out: Vec<u8> = Vec::new();
        push_slice(&mut out, &padded_plaintext.as_slice()[0..real_size as usize]);
        proof {
            assert forall|bytes: Seq<u8>, data: Seq<u8>|
                #![trigger seals_padded(bytes, key@, data)]
                (self.read_from(bytes) && seals_padded(bytes, key@, data)) implies out@ == data by {
                assert(padded(data).subrange(0, data.len() as int) =~= data);
            }
        }
        Ok(out)
    }

    pub fn to_bytes(&self) -> (bytes: Vec<u8>)
        ensures
            bytes@ == self.spec_bytes(),
            bytes@.len() == self.spec_size(),
            self.wf(),
    {
        proof {
            use_type_invariant(&self.ciphertext);
        }
        let mut bytes: Vec<u8> = Vec::new();
        let h = self.header.to_bytes();
        push_slice(&mut bytes, h.as_slice());
        push_slice(&mut bytes, &self.nonce);
        push_slice(&mut bytes, self.ciphertext.bytes.as_slice());
        bytes
    }

    /// Reads a block: a header, a 12-byte nonce, and all further bytes as ciphertext.
    pub fn from_bytes(data: &[u8]) -> (r: Result<Self, VartaError>)
        ensures
            data@.len() < MIN_BLOCK_SIZE ==> (r matches Err(VartaError::BlockTooShort(n)) && n
                == data@.len()),
            data@.len() >= MIN_BLOCK_SIZE ==> (r is Ok <==> BlockHeader::parses(data@)),
            data@.len() >= MIN_BLOCK_SIZE && data@.subrange(0, 4) != block_magic() ==> (r matches Err(
                VartaError::InvalidBlockMagic(m),
            ) && m@ == data@.subrange(0, 4)),
            data@.len() >= MIN_BLOCK_SIZE && data@.subrange(0, 4) == block_magic()
                && BlockType::from_code(data@[5]) is None ==> (r matches Err(
                VartaError::UnknownBlockType(v),
            ) && v == data@[5]),
            r matches Ok(b) ==> b.read_from(data@) && b.wf(),
    {
        if data.len() < MIN_BLOCK_SIZE {
            return Err(VartaError::BlockTooShort(data.len()));
        }
        proof {
            let s = data@.subrange(0, HEADER_SIZE as int);
            assert(s.subrange(0, 4) =~= data@.subrange(0, 4));
        }
        let header = match BlockHeader::from_bytes(&data[0..HEADER_SIZE]) {
            Ok(h) => h,
            Err(e) => {
                return Err(e);
            },
        };
        proof {
            let s = data@.subrange(0, HEADER_SIZE as int);
            assert(s.subrange(0, 4) =~= data@.subrange(0, 4));
            assert(s.subrange(6, 8) =~= data@.subrange(6, 8));
            assert(s.subrange(8, 16) =~= data@.subrange(8, 16));
            assert(s.subrange(16, 24) =~= data@.subrange(16, 24));
            assert(s.subrange(24, 28) =~= data@.subrange(24, 28));
            assert(s.subrange(28, 64) =~= data@.subrange(28, 64));
        }
        let mut nonce = [0u8; 12];
        fill_from(&mut nonce, data, HEADER_SIZE);
        let mut ciphertext: Vec<u8> = Vec::new();
        push_slice(&mut ciphertext, &data[HEADER_SIZE + NONCE_SIZE..data.len()]);
        Ok(Self { header, nonce, ciphertext: Ciphertext { bytes: ciphertext } })
    }

    pub fn size(&self) -> (n: usize)
        ensures
            n == self.spec_size(),
    {
        proof {
            use_type_invariant(&self.ciphertext);
        }
        HEADER_SIZE + NONCE_SIZE + self.ciphertext.bytes.len()
    }

    pub fn min_size() -> (n: usize)
        ensures
            n == MIN_BLOCK_SIZE,
    {
        MIN_BLOCK_SIZE
    }

    /// Fixed block size (1 KB).
    pub fn block_size() -> (n: usize)
        ensures
            n == BLOCK_SIZE,
    {
        BLOCK_SIZE
    }

    /// Largest plaintext of a padded 1 KB block.
    pub fn max_plaintext_size() -> (n: usize)
        ensures
            n == BLOCK_SIZE - HEADER_SIZE - NONCE_SIZE - AUTH_TAG_SIZE,
            n == MAX_PLAINTEXT_SIZE,
    {
        BLOCK_SIZE - HEADER_SIZE - NONCE_SIZE - AUTH_TAG_SIZE
    }

    /// Whether the block has the padded size.
    pub fn is_padded(&self) -> (b: bool)
        ensures
            b == (self.spec_size() == BLOCK_SIZE),
    {
        self.size() == BLOCK_SIZE
    }

    pub fn header(&self) -> (h: &BlockHeader)
        ensures
            *h == self.spec_header(),
    {
        &self.header
    }

    pub fn header_mut(&mut self) -> (h: &mut BlockHeader)
        ensures
            *h == old(self).spec_header(),
            final(self).spec_header() == *final(h),
            final(self).spec_nonce() == old(self).spec_nonce(),
            final(self).spec_ciphertext() == old(self).spec_ciphertext(),
    {
        &mut self.header
    }

    pub fn nonce(&self) -> (n: &[u8; 12])
        ensures
            n@ == self.spec_nonce(),
    {
        &self.nonce
    }

    pub fn ciphertext_size(&self) -> (n: usize)
        ensures
            n == self.spec_ciphertext().len(),
    {
        self.ciphertext.bytes.len()
    }
}

/// A well-formed block read back from its own bytes has the same header, nonce and ciphertext.
pub proof fn lemma_block_bytes_roundtrip(b: Block, b2: Block)
    requires
        b.wf(),
        b2.read_from(b.spec_bytes()),
    ensures
        Block::parses(b.spec_bytes()),
        b2.spec_header() == b.spec_header(),
        b2.spec_nonce() == b.spec_nonce(),
        b2.spec_ciphertext() == b.spec_ciphertext(),
{
    let data = b.spec_bytes();
    let hb = b.spec_header().spec_bytes();
    vstd::bytes::lemma_auto_spec_u16_to_from_le_bytes();
    vstd::bytes::lemma_auto_spec_u32_to_from_le_bytes();
    vstd::bytes::lemma_auto_spec_u64_to_from_le_bytes();
    b.spec_header().lemma_bytes_len();
    assert(data.subrange(0, HEADER_SIZE as int) =~= hb);
    lemma_block_header_roundtrip(b.spec_header(), hb);
    assert(hb.subrange(0, 4) =~= data.subrange(0, 4));
    assert(hb.subrange(6, 8) =~= data.subrange(6, 8));
    assert(hb.subrange(8, 16) =~= data.subrange(8, 16));
    assert(hb.subrange(16, 24) =~= data.subrange(16, 24));
    assert(hb.subrange(24, 28) =~= data.subrange(24, 28));
    assert(hb.subrange(28, 64) =~= data.subrange(28, 64));
    lemma_block_header_fields_determine(b.spec_header(), b2.spec_header(), data);
    assert(data.subrange(HEADER_SIZE as int, HEADER_SIZE + NONCE_SIZE) =~= b.spec_nonce());
    assert(data.subrange(HEADER_SIZE + NONCE_SIZE, data.len() as int) =~= b.spec_ciphertext());
}

} // verus!
