use std::collections::HashMap;
use varta::error::VartaError;
use varta::storage::components::block::{Block, BLOCK_SIZE, MAX_PLAINTEXT_SIZE};
use varta::storage::components::block_header::{BlockHeader, BlockType};
use varta::storage::components::header::{FileType, Header, FILE_HEADER_SIZE};
use varta::storage::components::index::Index;
use varta::storage::file::FileOp;
use varta::storage::storage::{Storage, METADATA_SIZE};

fn apply(file: &mut Vec<u8>, ops: Vec<FileOp>) {
    for op in ops {
        match op {
            FileOp::Create | FileOp::Truncate | FileOp::Remove => file.clear(),
            FileOp::WriteAt(off, bytes) => {
                let off = off as usize;
                if file.len() < off + bytes.len() {
                    file.resize(off + bytes.len(), 0);
                }
                file[off..off + bytes.len()].copy_from_slice(&bytes);
            }
            FileOp::Append(bytes) => file.extend_from_slice(&bytes),
            FileOp::Sync => {}
        }
    }
}

#[test]
fn header_reads_back() {
    let mut h = Header::new(FileType::Storage);
    h.set_index_size(52);
    h.set_mac([7u8; 32]);
    h.set_vault_metadata([1u8; 12], [2u8; 97], [3u8; 16]);
    let bytes = h.to_bytes();
    assert_eq!(bytes.len(), FILE_HEADER_SIZE);
    assert_eq!(h.size(), FILE_HEADER_SIZE);
    let back = Header::from_bytes(&bytes).unwrap();
    assert_eq!(back.index_size(), 52);
    assert_eq!(back.mac(), &[7u8; 32]);
    assert_eq!(back.file_type(), FileType::Storage);
    let (n, c, t) = back.get_vault_metadata();
    assert_eq!((n, c, t), (&[1u8; 12], &[2u8; 97], &[3u8; 16]));
    assert!(back.has_vault_metadata());
    assert!(!Header::new(FileType::Storage).has_vault_metadata());
}

#[test]
fn header_errors_name_the_missing_field() {
    let bytes = Header::new(FileType::ObjectAudit).to_bytes();
    assert!(matches!(Header::from_bytes(&bytes[..3]), Err(VartaError::DataTooShort)));
    assert!(matches!(Header::from_bytes(&bytes[..5]), Err(VartaError::MissingVersion)));
    assert!(matches!(Header::from_bytes(&bytes[..40]), Err(VartaError::MissingIndexSize)));
    assert!(matches!(Header::from_bytes(&bytes[..200]), Err(VartaError::MissingReserved)));
    let mut bad = bytes.clone();
    bad[0] = b'X';
    assert!(matches!(Header::from_bytes(&bad), Err(VartaError::UnknownMagic(_))));
}

#[test]
fn file_types_and_magic() {
    for t in [FileType::Storage, FileType::ObjectAudit, FileType::ActivityAudit] {
        assert_eq!(FileType::from_magic(&t.magic()).unwrap(), t);
    }
    assert!(FileType::from_magic(b"NOPE").is_err());
}

#[test]
fn block_header_reads_back() {
    let mut h = BlockHeader::new_at(BlockType::Card, 123, 1000);
    h.set_compressed(true);
    let bytes = h.to_bytes();
    assert_eq!(bytes.len(), 64);
    let back = BlockHeader::from_bytes(&bytes).unwrap();
    assert_eq!(back.block_type(), BlockType::Card);
    assert_eq!(back.plaintext_size(), 123);
    assert_eq!(back.timestamp(), 1000);
    assert_eq!(back.modified_at(), 1000);
    assert!(back.is_compressed());
    assert!(!back.is_deleted());
    assert!(matches!(BlockHeader::from_bytes(&bytes[..63]), Err(VartaError::BlockHeaderTooShort)));
    let mut bad = bytes.clone();
    bad[5] = 200;
    assert!(BlockHeader::from_bytes(&bad).is_err());
    assert!(matches!(BlockType::from_u8(99), Err(VartaError::UnknownBlockType(99))));
}

#[test]
fn padded_block_seals_and_opens() {
    let key = [9u8; 32];
    let block = Block::encrypt_padded(BlockType::Password, &key, b"secret").unwrap();
    assert_eq!(block.size(), BLOCK_SIZE);
    assert!(block.is_padded());
    let bytes = block.to_bytes();
    assert_eq!(bytes.len(), BLOCK_SIZE);
    let back = Block::from_bytes(&bytes).unwrap();
    assert_eq!(back.decrypt(&key).unwrap(), b"secret".to_vec());
    assert!(matches!(back.decrypt(&[8u8; 32]), Err(VartaError::DecryptionFailed)));
    let big = vec![0u8; MAX_PLAINTEXT_SIZE + 1];
    assert!(matches!(Block::encrypt_padded(BlockType::Password, &key, &big), Err(VartaError::PlaintextTooLarge(n)) if n == big.len()));
    assert!(Block::encrypt_padded(BlockType::Password, &key, &big[..MAX_PLAINTEXT_SIZE]).is_ok());
}

#[test]
fn plain_block_seals_and_opens() {
    let key = [9u8; 32];
    let block = Block::encrypt(BlockType::Note, &key, b"note").unwrap();
    let back = Block::from_bytes(&block.to_bytes()).unwrap();
    assert_eq!(back.decrypt(&key).unwrap(), b"note".to_vec());
    assert!(matches!(Block::from_bytes(&[0u8; 10]), Err(_)));
}

#[test]
fn index_matches_the_borsh_map_encoding() {
    let mut idx = Index::new();
    assert!(idx.is_empty());
    idx.insert([5u8; 32], 100, 1024);
    idx.insert([1u8; 32], 200, 1024);
    idx.insert([5u8; 32], 300, 64);
    assert_eq!(idx.len(), 2);
    assert_eq!(idx.get(&[5u8; 32]), Some(&(300, 64)));
    assert!(idx.contains_key(&[1u8; 32]));
    let mut m: HashMap<[u8; 32], (u64, u64)> = HashMap::new();
    m.insert([5u8; 32], (300, 64));
    m.insert([1u8; 32], (200, 1024));
    assert_eq!(idx.to_bytes().unwrap(), borsh::to_vec(&m).unwrap());
    let back = Index::from_data(Some(&idx.to_bytes().unwrap())).unwrap();
    assert_eq!(back.get(&[1u8; 32]), Some(&(200, 1024)));
    assert_eq!(idx.remove(&[1u8; 32]), Some((200, 1024)));
    assert_eq!(idx.remove(&[1u8; 32]), None);
    assert!(Index::from_data(None).unwrap().is_empty());
    assert!(matches!(Index::from_data(Some(&[1, 2, 3])), Err(VartaError::IndexDecodeFailed)));
}

#[test]
fn storage_file_reopens_with_its_blocks() {
    let key = [4u8; 32];
    let mut st = Storage::create("store.bin", Header::new(FileType::Storage));
    let mut file = Vec::new();
    apply(&mut file, st.take_pending());
    assert_eq!(file.len(), METADATA_SIZE);

    let block = Block::encrypt_padded(BlockType::Password, &key, b"alpha").unwrap();
    let off = st.add_block(block, [1u8; 32]).unwrap();
    assert_eq!(off as usize, METADATA_SIZE);
    let block = Block::encrypt_padded(BlockType::Password, &key, b"beta").unwrap();
    st.add_block(block, [2u8; 32]).unwrap();
    apply(&mut file, st.take_pending());

    let reopened = Storage::open("store.bin", file.clone()).unwrap();
    assert_eq!(reopened.get_block(&[1u8; 32]).unwrap().decrypt(&key).unwrap(), b"alpha".to_vec());
    assert_eq!(reopened.get_block(&[2u8; 32]).unwrap().decrypt(&key).unwrap(), b"beta".to_vec());
    assert_eq!(reopened.list_indices().len(), 2);

    st.del_block(&[1u8; 32]).unwrap();
    assert!(matches!(st.get_block(&[1u8; 32]), Err(VartaError::BlockNotFound)));
    st.secure_del_block(&[2u8; 32]).unwrap();
    apply(&mut file, st.take_pending());
    let emptied = Storage::open("store.bin", file).unwrap();
    assert!(emptied.list_indices().is_empty());
    assert!(matches!(st.del_block(&[9u8; 32]), Err(VartaError::BlockNotFound)));
}

#[test]
fn updating_a_block_in_place_keeps_its_offset() {
    let key = [4u8; 32];
    let mut st = Storage::create("s", Header::new(FileType::Storage));
    let b1 = Block::encrypt_padded(BlockType::Password, &key, b"one").unwrap();
    let off = st.add_block(b1, [3u8; 32]).unwrap();
    let b2 = Block::encrypt_padded(BlockType::Password, &key, b"two").unwrap();
    assert_eq!(st.upd_block(b2, [3u8; 32]).unwrap(), off);
    assert_eq!(st.get_block(&[3u8; 32]).unwrap().decrypt(&key).unwrap(), b"two".to_vec());
}

#[test]
fn opening_garbage_fails() {
    assert!(Storage::open("x", vec![0u8; 10]).is_err());
    assert!(Storage::open("x", Vec::new()).is_err());
}

#[test]
fn wiping_clears_header_secrets_and_index() {
    let mut h = Header::new(FileType::Storage);
    h.set_index_size(52);
    h.set_mac([7u8; 32]);
    h.set_vault_metadata([1u8; 12], [2u8; 97], [3u8; 16]);
    h.wipe();
    assert_eq!(h.mac(), &[0u8; 32]);
    assert_eq!(h.get_vault_metadata(), (&[0u8; 12], &[0u8; 97], &[0u8; 16]));
    assert!(!h.has_vault_metadata());
    assert_eq!(h.index_size(), 52);
    assert_eq!(h.file_type(), FileType::Storage);

    let mut idx = Index::new();
    idx.insert([5u8; 32], 100, 1024);
    idx.insert([1u8; 32], 200, 1024);
    idx.wipe();
    assert!(idx.is_empty());
    assert_eq!(idx.get(&[5u8; 32]), None);
}
