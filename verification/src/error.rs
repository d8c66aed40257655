use vstd::prelude::*;

verus! {

/// Every failure that the library reports.
#[derive(Debug)]
pub enum VartaError {
    /// A block header needs 64 bytes.
    BlockHeaderTooShort,
    /// The first four bytes of a block header are not the block magic.
    InvalidBlockMagic([u8; 4]),
    /// The block type byte names no known block type.
    UnknownBlockType(u8),
    /// A serialized block is shorter than the minimal block (the length is given).
    BlockTooShort(usize),
    /// A plaintext does not fit into one padded block (the length is given).
    PlaintextTooLarge(usize),
    /// The cipher refused to encrypt the plaintext.
    EncryptionFailed,
    /// A file name is not the hexadecimal encryption of a UTF-8 name.
    InvalidFilename,
    /// A counter of the vector clock cannot be advanced any further.
    CounterOverflow,
    /// Authenticated decryption failed.
    DecryptionFailed,
    /// The plaintext size recorded in a block header exceeds the decrypted data.
    InvalidPlaintextSize(u32, usize),
    /// A file header needs at least its four magic bytes.
    DataTooShort,
    /// The magic bytes of a file header name no known file type.
    UnknownMagic([u8; 4]),
    MissingVersion,
    MissingFlags,
    MissingMac,
    MissingIndexSize,
    MissingMetadataNonce,
    MissingMetadataCiphertext,
    MissingMetadataTag,
    MissingReserved,
    /// A reader ran out of bytes before a fixed-size field was complete.
    UnexpectedEof,
    /// The serialized index could not be decoded.
    IndexDecodeFailed,
    /// The index could not be encoded.
    IndexEncodeFailed,
    /// The serialized index does not fit into the index block (its length is given).
    IndexTooLarge(usize),
    /// No block is stored under the requested key.
    BlockNotFound,
    /// Serialized vault metadata is shorter than 97 bytes (the length is given).
    InvalidDataSize(usize),
    /// The metadata ciphertext is shorter than an authentication tag.
    InvalidCiphertextLength,
    /// An object record or operation record could not be decoded.
    RecordDecodeFailed,
    /// A record field is longer than its length prefix can describe.
    RecordTooLarge,
    ObjectAlreadyExists(String),
    ObjectNotFound(String),
    NoLastOperation,
    VaultNotFound(String),
    VaultMetadataNotFound,
    AgentNotFound(String),
    InvalidMasterKeyLength,
    InvalidMasterKeyRecord,
    NoAgentLoggedIn,
    NoVaultOpened,
    InvalidDeviceKeyLength,
    /// The file would grow past 2^64 bytes.
    FileTooLarge,
    /// The file header records an index longer than the index block (the size is given).
    IndexSizeOutOfRange(u32),
}

} // verus!
