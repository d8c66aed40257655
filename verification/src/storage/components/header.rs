//! The fixed 296-byte header at the start of every vault file.
use vstd::prelude::*;
use vstd::bytes::*;
use crate::bytes::{push_slice, push_u16_le, push_u32_le, read_u16_le, read_u32_le, fill_from};
use crate::error::VartaError;
use crate::crypto::primitives::wipe_bytes;

verus! {

broadcast use vstd::seq_lib::group_seq_properties;

/// Size of a serialized file header.
pub const FILE_HEADER_SIZE: usize = 296;

pub const CURRENT_VERSION: u16 = 1;

/// Magic bytes "SVRT" of a storage file.
pub const MAGIC_STORAGE: [u8; 4] = [0x53, 0x56, 0x52, 0x54];
/// Magic bytes "OVRT" of an object audit log.
pub const MAGIC_OBJECT: [u8; 4] = [0x4f, 0x56, 0x52, 0x54];
/// Magic bytes "AVRT" of an activity audit log.
pub const MAGIC_ACTIVITY: [u8; 4] = [0x41, 0x56, 0x52, 0x54];

#[derive(Debug, Clone, Copy, PartialEq, Eq, Structural)]
pub enum FileType {
    Storage,
    ObjectAudit,
    ActivityAudit,
}

impl FileType {
    /// The four magic bytes that open a file of this type.
    pub open spec fn spec_magic(self) -> Seq<u8> {
        match self {
            FileType::Storage => seq![0x53u8, 0x56u8, 0x52u8, 0x54u8],
            FileType::ObjectAudit => seq![0x4fu8, 0x56u8, 0x52u8, 0x54u8],
            FileType::ActivityAudit => seq![0x41u8, 0x56u8, 0x52u8, 0x54u8],
        }
    }

    /// The file type that four magic bytes announce, if any.
    pub open spec fn spec_from_magic(m: Seq<u8>) -> Option<FileType> {
        if m == FileType::Storage.spec_magic() {
            Some(FileType::Storage)
        } else if m == FileType::ObjectAudit.spec_magic() {
            Some(FileType::ObjectAudit)
        } else if m == FileType::ActivityAudit.spec_magic() {
            Some(FileType::ActivityAudit)
        } else {
            None
        }
    }

    /// The file name extension of this file type.
    pub open spec fn spec_extension(self) -> Seq<char> {
        match self {
            FileType::Storage => seq!['s', 'v', 'r', 't'],
            FileType::ObjectAudit => seq!['o', 'v', 'r', 't'],
            FileType::ActivityAudit => seq!['a', 'v', 'r', 't'],
        }
    }

    pub fn magic(&self) -> (m: [u8; 4])
        ensures
            m@ == self.spec_magic(),
    {
        let m = match self {
            FileType::Storage => MAGIC_STORAGE,
            FileType::ObjectAudit => MAGIC_OBJECT,
            FileType::ActivityAudit => MAGIC_ACTIVITY,
        };
        assert(m@ =~= self.spec_magic());
        m
    }

    pub fn from_magic(magic: &[u8; 4]) -> (r: Result<FileType, VartaError>)
        ensures
            FileType::spec_from_magic(magic@) matches Some(t) ==> (r matches Ok(u) && u == t),
            FileType::spec_from_magic(magic@) is None ==> (r matches Err(VartaError::UnknownMagic(m))
                && m@ == magic@),
    {
        let ghost s = FileType::Storage.spec_magic();
        let ghost o = FileType::ObjectAudit.spec_magic();
        let ghost a = FileType::ActivityAudit.spec_magic();
        if magic[0] == 0x53 && magic[1] == 0x56 && magic[2] == 0x52 && magic[3] == 0x54 {
            assert(magic@ =~= s);
            Ok(FileType::Storage)
        } else if magic[0] == 0x4f && magic[1] == 0x56 && magic[2] == 0x52 && magic[3] == 0x54 {
            assert(magic@ =~= o);
            assert(magic@ != s) by { assert(magic@[0] != s[0]); }
            Ok(FileType::ObjectAudit)
        } else if magic[0] == 0x41 && magic[1] == 0x56 && magic[2] == 0x52 && magic[3] == 0x54 {
            assert(magic@ =~= a);
            assert(magic@ != s) by { assert(magic@[0] != s[0]); }
            assert(magic@ != o) by { assert(magic@[0] != o[0]); }
            Ok(FileType::ActivityAudit)
        } else {
            proof {
                if magic@ == s {
                    assert(magic@[0] == s[0] && magic@[1] == s[1] && magic@[2] == s[2] && magic@[3] == s[3]);
                }
                if magic@ == o {
                    assert(magic@[0] == o[0] && magic@[1] == o[1] && magic@[2] == o[2] && magic@[3] == o[3]);
                }
                if magic@ == a {
                    assert(magic@[0] == a[0] && magic@[1] == a[1] && magic@[2] == a[2] && magic@[3] == a[3]);
                }
            }
            Err(VartaError::UnknownMagic(*magic))
        }
    }

    pub fn extension(&self) -> (e: &'static str)
        ensures
            e@ == self.spec_extension(),
    {
        match self {
            FileType::Storage => {
                proof {
                    reveal_strlit("svrt");
                }
                "svrt"
            },
            FileType::ObjectAudit => {
                proof {
                    reveal_strlit("ovrt");
                }
                "ovrt"
            },
            FileType::ActivityAudit => {
                proof {
                    reveal_strlit("avrt");
                }
                "avrt"
            },
        }
    }
}

/// Each file type's magic announces that file type again.
pub proof fn lemma_file_type_magic_roundtrip(t: FileType)
    ensures
        FileType::spec_from_magic(t.spec_magic()) == Some(t),
{
    let s = FileType::Storage.spec_magic();
    let o = FileType::ObjectAudit.spec_magic();
    assert(o != s) by { assert(o[0] != s[0]); }
    let a = FileType::ActivityAudit.spec_magic();
    assert(a != s) by { assert(a[0] != s[0]); }
    assert(a != o) by { assert(a[0] != o[0]); }
}

pub struct Header {
    file_type: FileType,
    version: u16,
    flags: u8,
    mac: [u8; 32],
    /// Length of the serialized index inside the index block; 0 means no index.
    index_size: u32,
    metadata_nonce: [u8; 12],
    metadata_ciphertext: [u8; 97],
    metadata_tag: [u8; 16],
    reserved: [u8; 128],
}

/// The error that a header read reports for data that holds a known magic but
/// stops after `len` bytes: the first field that it lacks.
pub open spec fn truncation_error(len: int) -> VartaError {
    if len < 6 {
        VartaError::MissingVersion
    } else if len < 7 {
        VartaError::MissingFlags
    } else if len < 39 {
        VartaError::MissingMac
    } else if len < 43 {
        VartaError::MissingIndexSize
    } else if len < 55 {
        VartaError::MissingMetadataNonce
    } else if len < 152 {
        VartaError::MissingMetadataCiphertext
    } else if len < 168 {
        VartaError::MissingMetadataTag
    } else {
        VartaError::MissingReserved
    }
}

impl Header {
    pub closed spec fn spec_file_type(self) -> FileType {
        self.file_type
    }

    pub closed spec fn spec_version(self) -> u16 {
        self.version
    }

    pub closed spec fn spec_flags(self) -> u8 {
        self.flags
    }

    pub closed spec fn spec_mac(self) -> Seq<u8> {
        self.mac@
    }

    pub closed spec fn spec_mac_array(self) -> [u8; 32] {
        self.mac
    }

    pub closed spec fn spec_index_size(self) -> u32 {
        self.index_size
    }

    pub closed spec fn spec_metadata_nonce(self) -> Seq<u8> {
        self.metadata_nonce@
    }

    pub closed spec fn spec_metadata_ciphertext(self) -> Seq<u8> {
        self.metadata_ciphertext@
    }

    pub closed spec fn spec_metadata_tag(self) -> Seq<u8> {
        self.metadata_tag@
    }

    pub closed spec fn spec_reserved(self) -> Seq<u8> {
        self.reserved@
    }

    /// This header with another index size.
    pub closed spec fn with_index_size(self, size: u32) -> Header {
        Header { index_size: size, ..self }
    }

    /// This header with another MAC.
    pub closed spec fn with_mac(self, mac: [u8; 32]) -> Header {
        Header { mac, ..self }
    }

    /// This header with other vault metadata.
    pub closed spec fn with_vault_metadata(self, nonce: [u8; 12], ciphertext: [u8; 97], tag: [u8; 16]) -> Header {
        Header { metadata_nonce: nonce, metadata_ciphertext: ciphertext, metadata_tag: tag, ..self }
    }

    /// The header on disk: magic, version (LE), flags, MAC, index size (LE),
    /// metadata nonce, metadata ciphertext, metadata tag, reserved bytes.
    pub open spec fn spec_bytes(self) -> Seq<u8> {
        self.spec_file_type().spec_magic() + spec_u16_to_le_bytes(self.spec_version()) + seq![
            self.spec_flags(),
        ] + self.spec_mac() + spec_u32_to_le_bytes(self.spec_index_size())
            + self.spec_metadata_nonce() + self.spec_metadata_ciphertext()
            + self.spec_metadata_tag() + self.spec_reserved()
    }

    /// The header holds the fields that the first 296 bytes of `data` encode.
    pub open spec fn fields_match(self, data: Seq<u8>) -> bool {
        &&& FileType::spec_from_magic(data.subrange(0, 4)) == Some(self.spec_file_type())
        &&& self.spec_version() == spec_u16_from_le_bytes(data.subrange(4, 6))
        &&& self.spec_flags() == data[6]
        &&& self.spec_mac() == data.subrange(7, 39)
        &&& self.spec_index_size() == spec_u32_from_le_bytes(data.subrange(39, 43))
        &&& self.spec_metadata_nonce() == data.subrange(43, 55)
        &&& self.spec_metadata_ciphertext() == data.subrange(55, 152)
        &&& self.spec_metadata_tag() == data.subrange(152, 168)
        &&& self.spec_reserved() == data.subrange(168, 296)
    }

    /// Whether `data` begins with a complete header of a known file type.
    pub open spec fn parses(data: Seq<u8>) -> bool {
        data.len() >= FILE_HEADER_SIZE && FileType::spec_from_magic(data.subrange(0, 4)) is Some
    }

    /// A fresh header: current version, no flags, zero MAC, no index, no vault metadata.
    pub fn new(file_type: FileType) -> (h: Self)
        ensures
            h.spec_file_type() == file_type,
            h.spec_version() == CURRENT_VERSION,
            h.spec_flags() == 0,
            h.spec_mac() == Seq::new(32, |i: int| 0u8),
            h.spec_index_size() == 0,
            h.spec_metadata_nonce() == Seq::new(12, |i: int| 0u8),
            h.spec_metadata_ciphertext() == Seq::new(97, |i: int| 0u8),
            h.spec_metadata_tag() == Seq::new(16, |i: int| 0u8),
            h.spec_reserved() == Seq::new(128, |i: int| 0u8),
    {
        let h = Self {
            file_type,
            version: CURRENT_VERSION,
            flags: 0,
            mac: [0u8; 32],
            index_size: 0,
            metadata_nonce: [0u8; 12],
            metadata_ciphertext: [0u8; 97],
            metadata_tag: [0u8; 16],
            reserved: [0u8; 128],
        };
        assert(h.mac@ =~= Seq::new(32, |i: int| 0u8));
        assert(h.metadata_nonce@ =~= Seq::new(12, |i: int| 0u8));
        assert(h.metadata_ciphertext@ =~= Seq::new(97, |i: int| 0u8));
        assert(h.metadata_tag@ =~= Seq::new(16, |i: int| 0u8));
        assert(h.reserved@ =~= Seq::new(128, |i: int| 0u8));
        h
    }

    pub fn size(&self) -> (n: usize)
        ensures
            n == FILE_HEADER_SIZE,
    {
        4 + 2 + 1 + 32 + 4 + 12 + 97 + 16 + 128
    }

    pub fn to_bytes(&self) -> (bytes: Vec<u8>)
        ensures
            bytes@ == self.spec_bytes(),
            bytes@.len() == FILE_HEADER_SIZE,
    {
        proof {
            lemma_auto_spec_u16_to_from_le_bytes();
            lemma_auto_spec_u32_to_from_le_bytes();
        }
        let mut buffer: Vec<u8> = Vec::with_capacity(FILE_HEADER_SIZE);
        let magic = self.file_type.magic();
        push_slice(&mut buffer, &magic);
        push_u16_le(&mut buffer, self.version);
        buffer.push(self.flags);
        push_slice(&mut buffer, &self.mac);
        push_u32_le(&mut buffer, self.index_size);
        push_slice(&mut buffer, &self.metadata_nonce);
        push_slice(&mut buffer, &self.metadata_ciphertext);
        push_slice(&mut buffer, &self.metadata_tag);
        push_slice(&mut buffer, &self.reserved);
        assert(buffer@ =~= self.spec_bytes());
        buffer
    }

    /// Reads a header from the first 296 bytes of `data`, naming the first
    /// field that is missing when `data` is shorter.
    pub fn from_bytes(data: &[u8]) -> (r: Result<Self, VartaError>)
        ensures
            data@.len() < 4 ==> r matches Err(VartaError::DataTooShort),
            data@.len() >= 4 && FileType::spec_from_magic(data@.subrange(0, 4)) is None ==> (r matches Err(
                VartaError::UnknownMagic(m),
            ) && m@ == data@.subrange(0, 4)),
            data@.len() >= 4 && FileType::spec_from_magic(data@.subrange(0, 4)) is Some
                && data@.len() < FILE_HEADER_SIZE ==> (r matches Err(e) && e == truncation_error(
                data@.len() as int,
            )),
            r is Ok <==> Header::parses(data@),
            r matches Ok(h) ==> h.fields_match(data@),
    {
        if data.len() < 4 {
            return Err(VartaError::DataTooShort);
        }
        let mut magic = [0u8; 4];
        fill_from(&mut magic, data, 0);
        let file_type = match FileType::from_magic(&magic) {
            Ok(t) => t,
            Err(e) => {
                return Err(e);
            },
        };
        if data.len() < 6 {
            return Err(VartaError::MissingVersion);
        }
        let version = read_u16_le(data, 4);
        if data.len() < 7 {
            return Err(VartaError::MissingFlags);
        }
        let flags = data[6];
        if data.len() < 39 {
            return Err(VartaError::MissingMac);
        }
        let mut mac = [0u8; 32];
        fill_from(&mut mac, data, 7);
        if data.len() < 43 {
            return Err(VartaError::MissingIndexSize);
        }
        let index_size = read_u32_le(data, 39);
        if data.len() < 55 {
            return Err(VartaError::MissingMetadataNonce);
        }
        let mut metadata_nonce = [0u8; 12];
        fill_from(&mut metadata_nonce, data, 43);
        if data.len() < 152 {
            return Err(VartaError::MissingMetadataCiphertext);
        }
        let mut metadata_ciphertext = [0u8; 97];
        fill_from(&mut metadata_ciphertext, data, 55);
        if data.len() < 168 {
            return Err(VartaError::MissingMetadataTag);
        }
        let mut metadata_tag = [0u8; 16];
        fill_from(&mut metadata_tag, data, 152);
        if data.len() < FILE_HEADER_SIZE {
            return Err(VartaError::MissingReserved);
        }
        let mut reserved = [0u8; 128];
        fill_from(&mut reserved, data, 168);
        Ok(Self {
            file_type,
            version,
            flags,
            mac,
            index_size,
            metadata_nonce,
            metadata_ciphertext,
            metadata_tag,
            reserved,
        })
    }

    pub fn version(&self) -> (v: u16)
        ensures
            v == self.spec_version(),
    {
        self.version
    }

    pub fn index_size(&self) -> (n: u32)
        ensures
            n == self.spec_index_size(),
    {
        self.index_size
    }

    /// Sets the recorded index size; nothing else changes.
    pub fn set_index_size(&mut self, size: u32)
        ensures
            *final(self) == old(self).with_index_size(size),
            final(self).spec_index_size() == size,
    {
        self.index_size = size;
    }

    pub fn mac(&self) -> (m: &[u8; 32])
        ensures
            m@ == self.spec_mac(),
    {
        &self.mac
    }

    /// Sets the MAC; nothing else changes.
    pub fn set_mac(&mut self, mac: [u8; 32])
        ensures
            *final(self) == old(self).with_mac(mac),
            final(self).spec_mac() == mac@,
            final(self).spec_mac_array() == mac,
    {
        self.mac = mac;
    }

    pub fn file_type(&self) -> (t: FileType)
        ensures
            t == self.spec_file_type(),
    {
        self.file_type
    }

    /// Overwrites the MAC, the sealed vault metadata and the reserved bytes
    /// with zeros; nothing else changes.
    pub fn wipe(&mut self)
        ensures
            final(self).spec_mac() == Seq::new(32, |i: int| 0u8),
            final(self).spec_metadata_nonce() == Seq::new(12, |i: int| 0u8),
            final(self).spec_metadata_ciphertext() == Seq::new(97, |i: int| 0u8),
            final(self).spec_metadata_tag() == Seq::new(16, |i: int| 0u8),
            final(self).spec_reserved() == Seq::new(128, |i: int| 0u8),
            final(self).spec_file_type() == old(self).spec_file_type(),
            final(self).spec_version() == old(self).spec_version(),
            final(self).spec_flags() == old(self).spec_flags(),
            final(self).spec_index_size() == old(self).spec_index_size(),
    {
        wipe_bytes(&mut self.mac);
        wipe_bytes(&mut self.metadata_nonce);
        wipe_bytes(&mut self.metadata_ciphertext);
        wipe_bytes(&mut self.metadata_tag);
        wipe_bytes(&mut self.reserved);
    }

    /// Stores the sealed vault metadata; nothing else changes.
    pub fn set_vault_metadata(&mut self, nonce: [u8; 12], ciphertext: [u8; 97], tag: [u8; 16])
        ensures
            *final(self) == old(self).with_vault_metadata(nonce, ciphertext, tag),
            final(self).spec_metadata_nonce() == nonce@,
            final(self).spec_metadata_ciphertext() == ciphertext@,
            final(self).spec_metadata_tag() == tag@,
    {
        self.metadata_nonce = nonce;
        self.metadata_ciphertext = ciphertext;
        self.metadata_tag = tag;
    }

    pub fn get_vault_metadata(&self) -> (r: (&[u8; 12], &[u8; 97], &[u8; 16]))
        ensures
            r.0@ == self.spec_metadata_nonce(),
            r.1@ == self.spec_metadata_ciphertext(),
            r.2@ == self.spec_metadata_tag(),
    {
        (&self.metadata_nonce, &self.metadata_ciphertext, &self.metadata_tag)
    }

    /// Whether vault metadata was stored: the metadata nonce is not all zeros.
    pub fn has_vault_metadata(&self) -> (b: bool)
        ensures
            b == (self.spec_metadata_nonce() != Seq::new(12, |i: int| 0u8)),
    {
        let mut i: usize = 0;
        while i < 12
            invariant
                i <= 12,
                forall|j: int| 0 <= j < i ==> self.metadata_nonce@[j] == 0u8,
            decreases 12 - i,
        {
            if self.metadata_nonce[i] != 0 {
                assert(self.metadata_nonce@[i as int] != Seq::new(12, |k: int| 0u8)[i as int]);
                return true;
            }
            i = i + 1;
        }
        assert(self.metadata_nonce@ =~= Seq::new(12, |k: int| 0u8));
        false
    }
}

impl Header {
    /// Every header encodes to exactly 296 bytes.
    pub proof fn lemma_bytes_len(self)
        ensures
            self.spec_bytes().len() == FILE_HEADER_SIZE,
    {
        lemma_auto_spec_u16_to_from_le_bytes();
        lemma_auto_spec_u32_to_from_le_bytes();
    }
}

/// Changing the index size changes nothing else.
pub broadcast proof fn lemma_with_index_size(h: Header, n: u32)
    ensures
        #![trigger h.with_index_size(n)]
        h.with_index_size(n).spec_index_size() == n,
        h.with_index_size(n).spec_file_type() == h.spec_file_type(),
        h.with_index_size(n).spec_version() == h.spec_version(),
        h.with_index_size(n).spec_flags() == h.spec_flags(),
        h.with_index_size(n).spec_mac() == h.spec_mac(),
        h.with_index_size(n).spec_metadata_nonce() == h.spec_metadata_nonce(),
        h.with_index_size(n).spec_metadata_ciphertext() == h.spec_metadata_ciphertext(),
        h.with_index_size(n).spec_metadata_tag() == h.spec_metadata_tag(),
        h.with_index_size(n).spec_reserved() == h.spec_reserved(),
{
}

/// Changing the MAC changes nothing else.
pub broadcast proof fn lemma_with_mac(h: Header, mac: [u8; 32])
    ensures
        #![trigger h.with_mac(mac)]
        h.with_mac(mac).spec_mac() == mac@,
        h.with_mac(mac).spec_index_size() == h.spec_index_size(),
        h.with_mac(mac).spec_file_type() == h.spec_file_type(),
        h.with_mac(mac).spec_version() == h.spec_version(),
        h.with_mac(mac).spec_flags() == h.spec_flags(),
        h.with_mac(mac).spec_metadata_nonce() == h.spec_metadata_nonce(),
        h.with_mac(mac).spec_metadata_ciphertext() == h.spec_metadata_ciphertext(),
        h.with_mac(mac).spec_metadata_tag() == h.spec_metadata_tag(),
        h.with_mac(mac).spec_reserved() == h.spec_reserved(),
{
}

/// Changing the vault metadata changes nothing else.
pub broadcast proof fn lemma_with_vault_metadata(h: Header, nonce: [u8; 12], ciphertext: [u8; 97], tag: [u8; 16])
    ensures
        #![trigger h.with_vault_metadata(nonce, ciphertext, tag)]
        h.with_vault_metadata(nonce, ciphertext, tag).spec_metadata_nonce() == nonce@,
        h.with_vault_metadata(nonce, ciphertext, tag).spec_metadata_ciphertext() == ciphertext@,
        h.with_vault_metadata(nonce, ciphertext, tag).spec_metadata_tag() == tag@,
        h.with_vault_metadata(nonce, ciphertext, tag).spec_index_size() == h.spec_index_size(),
        h.with_vault_metadata(nonce, ciphertext, tag).spec_file_type() == h.spec_file_type(),
        h.with_vault_metadata(nonce, ciphertext, tag).spec_version() == h.spec_version(),
        h.with_vault_metadata(nonce, ciphertext, tag).spec_flags() == h.spec_flags(),
        h.with_vault_metadata(nonce, ciphertext, tag).spec_mac() == h.spec_mac(),
        h.with_vault_metadata(nonce, ciphertext, tag).spec_reserved() == h.spec_reserved(),
{
}

pub broadcast group group_header_updates {
    lemma_with_index_size,
    lemma_with_mac,
    lemma_with_vault_metadata,
}

/// A header's bytes parse, and hold that header's fields.
pub proof fn lemma_header_bytes_parse(h: Header)
    ensures
        Header::parses(h.spec_bytes()),
        h.fields_match(h.spec_bytes()),
{
    lemma_auto_spec_u16_to_from_le_bytes();
    lemma_auto_spec_u32_to_from_le_bytes();
    lemma_file_type_magic_roundtrip(h.spec_file_type());
    let data = h.spec_bytes();
    assert(data.subrange(0, 4) =~= h.spec_file_type().spec_magic());
    assert(data.subrange(4, 6) =~= spec_u16_to_le_bytes(h.spec_version()));
    assert(data.subrange(7, 39) =~= h.spec_mac());
    assert(data.subrange(39, 43) =~= spec_u32_to_le_bytes(h.spec_index_size()));
    assert(data.subrange(43, 55) =~= h.spec_metadata_nonce());
    assert(data.subrange(55, 152) =~= h.spec_metadata_ciphertext());
    assert(data.subrange(152, 168) =~= h.spec_metadata_tag());
    assert(data.subrange(168, 296) =~= h.spec_reserved());
}

/// Reading back the bytes of a header gives the same header.
pub proof fn lemma_header_roundtrip(h: Header, h2: Header)
    requires
        h2.fields_match(h.spec_bytes()),
    ensures
        Header::parses(h.spec_bytes()),
        h.fields_match(h.spec_bytes()),
        h2 == h,
{
    lemma_auto_spec_u16_to_from_le_bytes();
    lemma_auto_spec_u32_to_from_le_bytes();
    lemma_file_type_magic_roundtrip(h.spec_file_type());
    let data = h.spec_bytes();
    assert(data.subrange(0, 4) =~= h.spec_file_type().spec_magic());
    assert(data.subrange(4, 6) =~= spec_u16_to_le_bytes(h.spec_version()));
    assert(data.subrange(7, 39) =~= h.spec_mac());
    assert(data.subrange(39, 43) =~= spec_u32_to_le_bytes(h.spec_index_size()));
    assert(data.subrange(43, 55) =~= h.spec_metadata_nonce());
    assert(data.subrange(55, 152) =~= h.spec_metadata_ciphertext());
    assert(data.subrange(152, 168) =~= h.spec_metadata_tag());
    assert(data.subrange(168, 296) =~= h.spec_reserved());
    assert(h2.mac =~= h.mac);
    assert(h2.metadata_nonce =~= h.metadata_nonce);
    assert(h2.metadata_ciphertext =~= h.metadata_ciphertext);
    assert(h2.metadata_tag =~= h.metadata_tag);
    assert(h2.reserved =~= h.reserved);
}

/// Whether a header holds what `data` begins with depends only on the first 296 bytes.
pub proof fn lemma_fields_match_prefix(h: Header, data: Seq<u8>)
    requires
        data.len() >= FILE_HEADER_SIZE,
    ensures
        h.fields_match(data) == h.fields_match(data.subrange(0, FILE_HEADER_SIZE as int)),
        Header::parses(data) == Header::parses(data.subrange(0, FILE_HEADER_SIZE as int)),
{
    let p = data.subrange(0, FILE_HEADER_SIZE as int);
    assert(p.subrange(0, 4) =~= data.subrange(0, 4));
    assert(p.subrange(4, 6) =~= data.subrange(4, 6));
    assert(p.subrange(7, 39) =~= data.subrange(7, 39));
    assert(p.subrange(39, 43) =~= data.subrange(39, 43));
    assert(p.subrange(43, 55) =~= data.subrange(43, 55));
    assert(p.subrange(55, 152) =~= data.subrange(55, 152));
    assert(p.subrange(152, 168) =~= data.subrange(152, 168));
    assert(p.subrange(168, 296) =~= data.subrange(168, 296));
}

/// Reads a header from the start of `data`: the magic first, then the rest,
/// failing with `UnexpectedEof` when `data` ends early.
pub fn read_header(data: &[u8]) -> (r: Result<Header, VartaError>)
    ensures
        data@.len() < 4 ==> r matches Err(VartaError::UnexpectedEof),
        data@.len() >= 4 && FileType::spec_from_magic(data@.subrange(0, 4)) is None ==> (r matches Err(
            VartaError::UnknownMagic(m),
        ) && m@ == data@.subrange(0, 4)),
        data@.len() >= 4 && FileType::spec_from_magic(data@.subrange(0, 4)) is Some && data@.len()
            < FILE_HEADER_SIZE ==> r matches Err(VartaError::UnexpectedEof),
        r is Ok <==> Header::parses(data@),
        r matches Ok(h) ==> h.fields_match(data@),
{
    if data.len() < 4 {
        return Err(VartaError::UnexpectedEof);
    }
    let mut magic = [0u8; 4];
    fill_from(&mut magic, data, 0);
    if let Err(e) = FileType::from_magic(&magic) {
        return Err(e);
    }
    if data.len() < FILE_HEADER_SIZE {
        return Err(VartaError::UnexpectedEof);
    }
    Header::from_bytes(data)
}

/// Appends the header's bytes to `out`.
pub fn write_header(out: &mut Vec<u8>, header: &Header)
    ensures
        final(out)@ == old(out)@ + header.spec_bytes(),
{
    let bytes = header.to_bytes();
    push_slice(out, bytes.as_slice());
}

} // verus!
