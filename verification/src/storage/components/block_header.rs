//! The 64-byte header in front of every encrypted block.
use vstd::prelude::*;
use vstd::bytes::*;
use crate::bytes::{push_slice, push_u16_le, push_u32_le, push_u64_le, read_u16_le, read_u32_le, read_u64_le, fill_from};
use crate::error::VartaError;
use crate::crypto::primitives::unix_time_now;

verus! {

broadcast use vstd::seq_lib::group_seq_properties;

/// Size of a serialized block header.
pub const HEADER_SIZE: usize = 64;
/// Block header format version.
pub const VERSION: u8 = 1;

/// The magic bytes "VBLK" that open every block header.
pub open spec fn block_magic() -> Seq<u8> {
    seq![0x56u8, 0x42u8, 0x4cu8, 0x4bu8]
}

/// What a block holds.
#[derive(Debug, Clone, Copy, PartialEq, Eq, Structural)]
pub enum BlockType {
    Password,
    Note,
    File,
    Card,
    Identity,
    Custom,
}

impl BlockType {
    /// The byte that stands for the block type on disk.
    pub open spec fn code(self) -> u8 {
        match self {
            BlockType::Password => 0x01,
            BlockType::Note => 0x02,
            BlockType::File => 0x03,
            BlockType::Card => 0x04,
            BlockType::Identity => 0x05,
            BlockType::Custom => 0xFF,
        }
    }

    /// The block type that a byte stands for, if any.
    pub open spec fn from_code(value: u8) -> Option<BlockType> {
        if value == 0x01 {
            Some(BlockType::Password)
        } else if value == 0x02 {
            Some(BlockType::Note)
        } else if value == 0x03 {
            Some(BlockType::File)
        } else if value == 0x04 {
            Some(BlockType::Card)
        } else if value == 0x05 {
            Some(BlockType::Identity)
        } else if value == 0xFF {
            Some(BlockType::Custom)
        } else {
            None
        }
    }

    pub fn from_u8(value: u8) -> (r: Result<BlockType, VartaError>)
        ensures
            BlockType::from_code(value) matches Some(t) ==> (r matches Ok(rt) && rt == t),
            BlockType::from_code(value) is None ==> (r matches Err(VartaError::UnknownBlockType(v))
                && v == value),
    {
        match value {
            0x01 => Ok(BlockType::Password),
            0x02 => Ok(BlockType::Note),
            0x03 => Ok(BlockType::File),
            0x04 => Ok(BlockType::Card),
            0x05 => Ok(BlockType::Identity),
            0xFF => Ok(BlockType::Custom),
            _ => Err(VartaError::UnknownBlockType(value)),
        }
    }

    pub fn to_u8(&self) -> (r: u8)
        ensures
            r == self.code(),
    {
        match self {
            BlockType::Password => 0x01,
            BlockType::Note => 0x02,
            BlockType::File => 0x03,
            BlockType::Card => 0x04,
            BlockType::Identity => 0x05,
            BlockType::Custom => 0xFF,
        }
    }
}

impl BlockType {
    /// Every block type survives the trip through its byte.
    pub proof fn lemma_from_code_of_code(t: BlockType)
        ensures
            BlockType::from_code(t.code()) == Some(t),
    {
    }

    /// Every byte that names a block type is that type's byte.
    pub proof fn lemma_code_of_from_code(v: u8)
        ensures
            BlockType::from_code(v) matches Some(u) ==> u.code() == v,
    {
    }
}

pub struct BlockHeader {
    magic: [u8; 4],
    version: u8,
    block_type: BlockType,
    flags: u16,
    timestamp: u64,
    modified_at: u64,
    plaintext_size: u32,
    reserved: [u8; 36],
}

/// Flag bit: the block's plaintext is compressed.
pub open spec fn compressed_bit(flags: u16) -> bool {
    flags & 0x01 != 0
}

/// Flag bit: the block is marked deleted.
pub open spec fn deleted_bit(flags: u16) -> bool {
    flags & 0x02 != 0
}

impl BlockHeader {
    #[verifier::type_invariant]
    spec fn has_block_magic(self) -> bool {
        self.magic@ == block_magic()
    }

    pub closed spec fn spec_magic(self) -> Seq<u8> {
        self.magic@
    }

    pub closed spec fn spec_version(self) -> u8 {
        self.version
    }

    pub closed spec fn spec_block_type(self) -> BlockType {
        self.block_type
    }

    pub closed spec fn spec_flags(self) -> u16 {
        self.flags
    }

    pub closed spec fn spec_timestamp(self) -> u64 {
        self.timestamp
    }

    pub closed spec fn spec_modified_at(self) -> u64 {
        self.modified_at
    }

    pub closed spec fn spec_plaintext_size(self) -> u32 {
        self.plaintext_size
    }

    pub closed spec fn spec_reserved(self) -> Seq<u8> {
        self.reserved@
    }

    /// The 64 bytes of the header on disk: magic, version, type, flags (LE),
    /// creation time (LE), modification time (LE), plaintext size (LE), reserved.
    pub open spec fn spec_bytes(self) -> Seq<u8> {
        self.spec_magic() + seq![self.spec_version(), self.spec_block_type().code()]
            + spec_u16_to_le_bytes(self.spec_flags())
            + spec_u64_to_le_bytes(self.spec_timestamp())
            + spec_u64_to_le_bytes(self.spec_modified_at())
            + spec_u32_to_le_bytes(self.spec_plaintext_size())
            + self.spec_reserved()
    }

    /// The fields that a header read from `data` holds, when `data` holds one.
    pub open spec fn fields_match(self, data: Seq<u8>) -> bool {
        &&& self.spec_magic() == data.subrange(0, 4)
        &&& self.spec_version() == data[4]
        &&& BlockType::from_code(data[5]) == Some(self.spec_block_type())
        &&& self.spec_flags() == spec_u16_from_le_bytes(data.subrange(6, 8))
        &&& self.spec_timestamp() == spec_u64_from_le_bytes(data.subrange(8, 16))
        &&& self.spec_modified_at() == spec_u64_from_le_bytes(data.subrange(16, 24))
        &&& self.spec_plaintext_size() == spec_u32_from_le_bytes(data.subrange(24, 28))
        &&& self.spec_reserved() == data.subrange(28, 64)
    }

    /// Whether `data` begins with a well-formed block header.
    pub open spec fn parses(data: Seq<u8>) -> bool {
        &&& data.len() >= HEADER_SIZE
        &&& data.subrange(0, 4) == block_magic()
        &&& BlockType::from_code(data[5]) is Some
    }

    /// A new header for a block of `block_type` holding `plaintext_size` bytes,
    /// stamped with the current time.
    pub fn new(block_type: BlockType, plaintext_size: u32) -> (h: Self)
        ensures
            h.spec_version() == VERSION,
            h.spec_block_type() == block_type,
            h.spec_flags() == 0,
            h.spec_timestamp() == h.spec_modified_at(),
            h.spec_plaintext_size() == plaintext_size,
            h.spec_reserved() == Seq::new(36, |i: int| 0u8),
            h.spec_magic() == block_magic(),
    {
        let now = unix_time_now();
        Self::new_at(block_type, plaintext_size, now)
    }

    /// A new header created and last modified at `now`.
    pub fn new_at(block_type: BlockType, plaintext_size: u32, now: u64) -> (h: Self)
        ensures
            h.spec_version() == VERSION,
            h.spec_block_type() == block_type,
            h.spec_flags() == 0,
            h.spec_timestamp() == now,
            h.spec_modified_at() == now,
            h.spec_plaintext_size() == plaintext_size,
            h.spec_reserved() == Seq::new(36, |i: int| 0u8),
            h.spec_magic() == block_magic(),
    {
        let h = Self {
            magic: [0x56u8, 0x42u8, 0x4cu8, 0x4bu8],
            version: VERSION,
            block_type,
            flags: 0,
            timestamp: now,
            modified_at: now,
            plaintext_size,
            reserved: [0u8; 36],
        };
        assert(h.magic@ =~= block_magic());
        assert(h.reserved@ =~= Seq::new(36, |i: int| 0u8));
        h
    }

    pub fn to_bytes(&self) -> (bytes: Vec<u8>)
        ensures
            bytes@ == self.spec_bytes(),
            bytes@.len() == HEADER_SIZE,
            self.spec_magic() == block_magic(),
    {
        proof {
            use_type_invariant(self);
            lemma_auto_spec_u16_to_from_le_bytes();
            lemma_auto_spec_u32_to_from_le_bytes();
            lemma_auto_spec_u64_to_from_le_bytes();
        }
        let mut buffer: Vec<u8> = Vec::with_capacity(HEADER_SIZE);
        push_slice(&mut buffer, &self.magic);
        buffer.push(self.version);
        buffer.push(self.block_type.to_u8());
        push_u16_le(&mut buffer, self.flags);
        push_u64_le(&mut buffer, self.timestamp);
        push_u64_le(&mut buffer, self.modified_at);
        push_u32_le(&mut buffer, self.plaintext_size);
        push_slice(&mut buffer, &self.reserved);
        assert(buffer@ =~= self.spec_bytes());
        buffer
    }

    /// Reads a header from the first 64 bytes of `data`.
    pub fn from_bytes(data: &[u8]) -> (r: Result<Self, VartaError>)
        ensures
            data@.len() < HEADER_SIZE ==> r matches Err(VartaError::BlockHeaderTooShort),
            data@.len() >= HEADER_SIZE && data@.subrange(0, 4) != block_magic() ==> (r matches Err(
                VartaError::InvalidBlockMagic(m),
            ) && m@ == data@.subrange(0, 4)),
            data@.len() >= HEADER_SIZE && data@.subrange(0, 4) == block_magic()
                && BlockType::from_code(data@[5]) is None ==> (r matches Err(
                VartaError::UnknownBlockType(v),
            ) && v == data@[5]),
            r is Ok <==> BlockHeader::parses(data@),
            r matches Ok(h) ==> h.fields_match(data@),
    {
        if data.len() < HEADER_SIZE {
            return Err(VartaError::BlockHeaderTooShort);
        }
        let mut magic = [0u8; 4];
        fill_from(&mut magic, data, 0);
        if !(magic[0] == 0x56 && magic[1] == 0x42 && magic[2] == 0x4c && magic[3] == 0x4b) {
            proof {
                if data@.subrange(0, 4) == block_magic() {
                    assert(magic@[0] == 0x56u8 && magic@[1] == 0x42u8);
                    assert(magic@[2] == 0x4cu8 && magic@[3] == 0x4bu8);
                }
            }
            return Err(VartaError::InvalidBlockMagic(magic));
        }
        assert(magic@ =~= block_magic());
        let version = data[4];
        let block_type = match BlockType::from_u8(data[5]) {
            Ok(t) => t,
            Err(e) => {
                return Err(e);
            },
        };
        let flags = read_u16_le(data, 6);
        let timestamp = read_u64_le(data, 8);
        let modified_at = read_u64_le(data, 16);
        let plaintext_size = read_u32_le(data, 24);
        let mut reserved = [0u8; 36];
        fill_from(&mut reserved, data, 28);
        Ok(Self {
            magic,
            version,
            block_type,
            flags,
            timestamp,
            modified_at,
            plaintext_size,
            reserved,
        })
    }

    pub fn size(&self) -> (n: usize)
        ensures
            n == HEADER_SIZE,
    {
        HEADER_SIZE
    }

    pub fn block_type(&self) -> (t: BlockType)
        ensures
            t == self.spec_block_type(),
    {
        self.block_type
    }

    pub fn version(&self) -> (v: u8)
        ensures
            v == self.spec_version(),
    {
        self.version
    }

    pub fn timestamp(&self) -> (t: u64)
        ensures
            t == self.spec_timestamp(),
    {
        self.timestamp
    }

    pub fn modified_at(&self) -> (t: u64)
        ensures
            t == self.spec_modified_at(),
    {
        self.modified_at
    }

    pub fn plaintext_size(&self) -> (n: u32)
        ensures
            n == self.spec_plaintext_size(),
    {
        self.plaintext_size
    }

    pub fn is_compressed(&self) -> (b: bool)
        ensures
            b == compressed_bit(self.spec_flags()),
    {
        self.flags & 0x01 != 0
    }

    /// Sets or clears the compressed bit; every other bit and field stays.
    pub fn set_compressed(&mut self, compressed: bool)
        ensures
            final(self).spec_flags() == (if compressed {
                old(self).spec_flags() | 0x01
            } else {
                old(self).spec_flags() & !0x01u16
            }),
            compressed_bit(final(self).spec_flags()) == compressed,
            deleted_bit(final(self).spec_flags()) == deleted_bit(old(self).spec_flags()),
            final(self).spec_version() == old(self).spec_version(),
            final(self).spec_block_type() == old(self).spec_block_type(),
            final(self).spec_timestamp() == old(self).spec_timestamp(),
            final(self).spec_modified_at() == old(self).spec_modified_at(),
            final(self).spec_plaintext_size() == old(self).spec_plaintext_size(),
            final(self).spec_reserved() == old(self).spec_reserved(),
    {
        proof {
            use_type_invariant(&*self);
        }
        let f = self.flags;
        if compressed {
            self.flags = f | 0x01;
            assert((f | 0x01) & 0x01 != 0 && (((f | 0x01) & 0x02 != 0) == (f & 0x02 != 0)))
                by (bit_vector);
        } else {
            self.flags = f & !0x01u16;
            assert(!((f & !0x01u16) & 0x01 != 0) && (((f & !0x01u16) & 0x02 != 0) == (f & 0x02
                != 0))) by (bit_vector);
        }
    }

    pub fn is_deleted(&self) -> (b: bool)
        ensures
            b == deleted_bit(self.spec_flags()),
    {
        self.flags & 0x02 != 0
    }

    /// Sets or clears the deleted bit; marking a header deleted stamps its
    /// modification time with the current time.
    pub fn set_deleted(&mut self, deleted: bool)
        ensures
            final(self).spec_flags() == (if deleted {
                old(self).spec_flags() | 0x02
            } else {
                old(self).spec_flags() & !0x02u16
            }),
            deleted_bit(final(self).spec_flags()) == deleted,
            compressed_bit(final(self).spec_flags()) == compressed_bit(old(self).spec_flags()),
            !deleted ==> final(self).spec_modified_at() == old(self).spec_modified_at(),
            final(self).spec_version() == old(self).spec_version(),
            final(self).spec_block_type() == old(self).spec_block_type(),
            final(self).spec_timestamp() == old(self).spec_timestamp(),
            final(self).spec_plaintext_size() == old(self).spec_plaintext_size(),
            final(self).spec_reserved() == old(self).spec_reserved(),
    {
        let now = if deleted { unix_time_now() } else { self.modified_at };
        self.apply_deleted(deleted, now);
    }

    /// Sets or clears the deleted bit as of time `now`: marking deleted sets the
    /// modification time to `now`, clearing leaves it.
    pub fn apply_deleted(&mut self, deleted: bool, now: u64)
        ensures
            final(self).spec_flags() == (if deleted {
                old(self).spec_flags() | 0x02
            } else {
                old(self).spec_flags() & !0x02u16
            }),
            deleted_bit(final(self).spec_flags()) == deleted,
            compressed_bit(final(self).spec_flags()) == compressed_bit(old(self).spec_flags()),
            final(self).spec_modified_at() == (if deleted {
                now
            } else {
                old(self).spec_modified_at()
            }),
            final(self).spec_version() == old(self).spec_version(),
            final(self).spec_block_type() == old(self).spec_block_type(),
            final(self).spec_timestamp() == old(self).spec_timestamp(),
            final(self).spec_plaintext_size() == old(self).spec_plaintext_size(),
            final(self).spec_reserved() == old(self).spec_reserved(),
    {
        proof {
            use_type_invariant(&*self);
        }
        let f = self.flags;
        if deleted {
            self.flags = f | 0x02;
            assert((f | 0x02) & 0x02 != 0 && (((f | 0x02) & 0x01 != 0) == (f & 0x01 != 0)))
                by (bit_vector);
        } else {
            self.flags = f & !0x02u16;
            assert(!((f & !0x02u16) & 0x02 != 0) && (((f & !0x02u16) & 0x01 != 0) == (f & 0x01
                != 0))) by (bit_vector);
        }
        if deleted {
            self.modified_at = now;
        }
    }

    /// Stamps the modification time with the current time.
    pub fn touch(&mut self)
        ensures
            final(self).spec_flags() == old(self).spec_flags(),
            final(self).spec_version() == old(self).spec_version(),
            final(self).spec_block_type() == old(self).spec_block_type(),
            final(self).spec_timestamp() == old(self).spec_timestamp(),
            final(self).spec_plaintext_size() == old(self).spec_plaintext_size(),
            final(self).spec_reserved() == old(self).spec_reserved(),
    {
        let now = unix_time_now();
        self.touch_at(now);
    }

    /// Sets the modification time to `now`; nothing else changes.
    pub fn touch_at(&mut self, now: u64)
        ensures
            final(self).spec_modified_at() == now,
            final(self).spec_flags() == old(self).spec_flags(),
            final(self).spec_version() == old(self).spec_version(),
            final(self).spec_block_type() == old(self).spec_block_type(),
            final(self).spec_timestamp() == old(self).spec_timestamp(),
            final(self).spec_plaintext_size() == old(self).spec_plaintext_size(),
            final(self).spec_reserved() == old(self).spec_reserved(),
    {
        proof {
            use_type_invariant(&*self);
        }
        self.modified_at = now;
    }
}

/// Reading back the bytes of a header gives the same header, field by field.
pub proof fn lemma_block_header_roundtrip(h: BlockHeader, data: Seq<u8>)
    requires
        h.spec_magic() == block_magic(),
        data == h.spec_bytes(),
    ensures
        BlockHeader::parses(data),
        h.fields_match(data),
{
    lemma_auto_spec_u16_to_from_le_bytes();
    lemma_auto_spec_u32_to_from_le_bytes();
    lemma_auto_spec_u64_to_from_le_bytes();
    BlockType::lemma_from_code_of_code(h.spec_block_type());
    let v = h.spec_version();
    let c = h.spec_block_type().code();
    assert(data.subrange(0, 4) =~= block_magic());
    assert(data.subrange(6, 8) =~= spec_u16_to_le_bytes(h.spec_flags()));
    assert(data.subrange(8, 16) =~= spec_u64_to_le_bytes(h.spec_timestamp()));
    assert(data.subrange(16, 24) =~= spec_u64_to_le_bytes(h.spec_modified_at()));
    assert(data.subrange(24, 28) =~= spec_u32_to_le_bytes(h.spec_plaintext_size()));
    assert(data.subrange(28, 64) =~= h.spec_reserved());
}

impl BlockHeader {
    /// A header with the block magic encodes to exactly 64 bytes.
    pub proof fn lemma_bytes_len(self)
        requires
            self.spec_magic() == block_magic(),
        ensures
            self.spec_bytes().len() == HEADER_SIZE,
    {
        lemma_auto_spec_u16_to_from_le_bytes();
        lemma_auto_spec_u32_to_from_le_bytes();
        lemma_auto_spec_u64_to_from_le_bytes();
    }
}

/// Two headers that both hold what `data` begins with are the same header.
pub proof fn lemma_block_header_fields_determine(h1: BlockHeader, h2: BlockHeader, data: Seq<u8>)
    requires
        data.len() >= HEADER_SIZE,
        h1.fields_match(data),
        h2.fields_match(data),
    ensures
        h1 == h2,
{
    assert(h1.magic =~= h2.magic);
    assert(h1.reserved =~= h2.reserved);
}

/// A header read from `data` is exactly what the first 64 bytes of `data` encode.
pub proof fn lemma_block_header_bytes_of_parse(h: BlockHeader, data: Seq<u8>)
    requires
        BlockHeader::parses(data),
        h.fields_match(data),
    ensures
        h.spec_bytes() == data.subrange(0, HEADER_SIZE as int),
{
    lemma_auto_spec_u16_to_from_le_bytes();
    lemma_auto_spec_u32_to_from_le_bytes();
    lemma_auto_spec_u64_to_from_le_bytes();
    BlockType::lemma_code_of_from_code(data[5]);
    assert(h.spec_bytes() =~= data.subrange(0, HEADER_SIZE as int));
}

} // verus!
