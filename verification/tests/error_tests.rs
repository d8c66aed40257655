use std::collections::BTreeMap;
use varta::agent::Agent;
use varta::crypto::symm_enc;
use varta::device::Device;
use varta::error::VartaError;
use varta::operation::Operation;
use varta::session::Session;
use varta::storage::components::block::Block;
use varta::storage::components::header::{FileType, Header};
use varta::storage::components::index::read_index;
use varta::storage::file::FileOp;
use varta::storage::storage::Storage;
use varta::vault::Vault;
use varta::vault_object::VaultObject;

fn image(ops: Vec<FileOp>) -> Vec<u8> {
    let mut file = Vec::new();
    for op in ops {
        match op {
            FileOp::Create | FileOp::Truncate | FileOp::Remove => file.clear(),
            FileOp::WriteAt(off, bytes) => {
                let off = off as usize;
                if file.len() < off + bytes.len() {
                    file.resize(off + bytes.len(), 0);
                }
                file[off..off + bytes.len()].copy_from_slice(&bytes);
            }
            FileOp::Append(bytes) => file.extend_from_slice(&bytes),
            FileOp::Sync => {}
        }
    }
    file
}

#[test]
fn vault_record_needs_97_bytes() {
    assert!(matches!(Vault::from_bytes(&[0u8; 96]), Err(VartaError::InvalidDataSize(96))));
    let mut data = vec![0u8; 100];
    data[0] = 1;
    data[1] = 2;
    data[33] = 3;
    data[65] = 4;
    let (v, a, m, d) = Vault::from_bytes(&data).unwrap();
    assert_eq!((v, a[0], m[0], d[0]), (1, 2, 3, 4));
}

#[test]
fn sealed_vault_record_opens_only_under_its_key() {
    let device = Device::new([1u8; 32]);
    let key = [2u8; 32];
    let vault = Vault::new("v".to_string(), [3u8; 32], &key, &device).unwrap();
    let (n, c, t) = vault.encrypt_for_header().unwrap();
    let meta = Vault::derive_meta_key(&key, "v");
    let (version, agent_id, _mk, digest) = Vault::decrypt_from_header(&n, &c, &t, &meta).unwrap();
    assert_eq!(version, 1);
    assert_eq!(agent_id, [3u8; 32]);
    assert_eq!(vault.to_bytes()[65..], digest[..]);
    assert!(matches!(Vault::decrypt_from_header(&n, &c, &t, &[0u8; 32]), Err(VartaError::DecryptionFailed)));
    assert_ne!(Vault::derive_meta_key(&key, "w"), meta);
}

#[test]
fn vault_files_without_metadata_are_refused() {
    let st = Storage::create("x", Header::new(FileType::Storage));
    let mut st = st;
    let bytes = image(st.take_pending());
    let r = Vault::open("v".to_string(), [0u8; 32], &[0u8; 32], bytes.clone(), bytes);
    assert!(matches!(r, Err(VartaError::VaultMetadataNotFound)));
}

#[test]
fn master_key_of_the_wrong_length_is_refused() {
    let device = Device::new([1u8; 32]);
    let meta = Agent::derive_meta_key("pw".to_string(), &device);
    let (nonce, ct) = symm_enc::encrypt(&meta, &[7u8; 31]);
    let record = borsh::to_vec(&(nonce, ct)).unwrap();
    let r = Agent::login("a".to_string(), "pw".to_string(), &device, record);
    assert!(matches!(r, Err(VartaError::InvalidMasterKeyLength)));
    let bad_nonce = borsh::to_vec(&(vec![0u8; 5], vec![0u8; 48])).unwrap();
    let r = Agent::login("a".to_string(), "pw".to_string(), &device, bad_nonce);
    assert!(matches!(r, Err(VartaError::InvalidMasterKeyRecord)));
}

#[test]
fn index_size_beyond_the_index_block_is_refused() {
    let mut st = Storage::create("x", Header::new(FileType::Storage));
    let mut bytes = image(st.take_pending());
    let mut h = Header::new(FileType::Storage);
    h.set_index_size(20000);
    let hb = h.to_bytes();
    bytes[..hb.len()].copy_from_slice(&hb);
    assert!(matches!(Storage::open("x", bytes), Err(VartaError::IndexSizeOutOfRange(20000))));
    assert!(matches!(read_index(&[0u8; 10], 4), Err(VartaError::UnexpectedEof)));
}

#[test]
fn too_many_blocks_overflow_the_index_block() {
    let key = [1u8; 32];
    let mut st = Storage::create("x", Header::new(FileType::Storage));
    let mut last = Ok(0);
    for i in 0..256u32 {
        let mut k = [0u8; 32];
        k[..4].copy_from_slice(&i.to_le_bytes());
        let block = Block::encrypt(varta::storage::components::block_header::BlockType::Note, &key, b"x").unwrap();
        last = st.add_block(block, k);
        if last.is_err() {
            break;
        }
    }
    assert!(matches!(last, Err(VartaError::IndexTooLarge(n)) if n == 4 + 48 * 256));
}

#[test]
fn malformed_blocks_are_refused() {
    assert!(matches!(Block::from_bytes(&[0u8; 91]), Err(VartaError::BlockTooShort(91))));
    let mut bytes = Block::encrypt_padded(varta::storage::components::block_header::BlockType::Password, &[1u8; 32], b"a")
        .unwrap()
        .to_bytes();
    bytes[0] = b'Z';
    assert!(matches!(Block::from_bytes(&bytes), Err(VartaError::InvalidBlockMagic(_))));
}

type Head = ([u8; 32], [u8; 32], String, u64, BTreeMap<[u8; 32], u64>, u64, String, Vec<u8>);
type Tail = ([u8; 32], [u8; 32], [u8; 32], [u8; 32], [u8; 32], Vec<u8>);

#[test]
fn exhausted_device_counter_is_refused() {
    let device = Device::new([1u8; 32]);
    let op = Operation::initial_at([2u8; 32], "v", &device, 1);
    let (mut head, tail): (Head, Tail) = borsh::from_slice(&op.to_bytes().unwrap()).unwrap();
    head.4.insert(device.get_id(), u64::MAX);
    let prev = Operation::from_bytes(&borsh::to_vec(&(head, tail)).unwrap()).unwrap();
    let obj = VaultObject::new_at("k".to_string(), vec![], 1);
    let r = Operation::new_at(&device, [2u8; 32], "v", [0u8; 32], &obj, "update_object", &prev, 2);
    assert!(matches!(r, Err(VartaError::CounterOverflow)));
}

#[test]
fn session_needs_an_agent_and_a_vault() {
    let mut s = Session::new(Device::new([1u8; 32]));
    assert!(matches!(s.new_vault("v".to_string()), Err(VartaError::NoAgentLoggedIn)));
    assert!(matches!(s.open_vault("v".to_string(), vec![], vec![]), Err(VartaError::NoAgentLoggedIn)));
    assert!(matches!(s.add_object("k".to_string(), vec![]), Err(VartaError::NoVaultOpened)));
    assert!(matches!(s.read_object("k"), Err(VartaError::NoVaultOpened)));
    assert!(matches!(s.list_objects(), Err(VartaError::NoVaultOpened)));
    assert!(matches!(s.close_vault(), Err(VartaError::NoVaultOpened)));
    assert!(s.take_pending().is_empty());
}

#[test]
fn session_round_trip() {
    let mut s = Session::new(Device::new([1u8; 32]));
    let record = s.create_agent("alice".to_string(), Some("pw".to_string())).unwrap();
    s.new_vault("work".to_string()).unwrap();
    s.add_object("k".to_string(), b"v".to_vec()).unwrap();
    assert_eq!(s.list_objects().unwrap(), vec!["k".to_string()]);
    assert_eq!(s.read_object("k").unwrap().value(), b"v");
    s.update_object("k".to_string(), b"w".to_vec()).unwrap();
    assert_eq!(s.read_object("k").unwrap().value(), b"w");
    let pending = s.take_pending();
    assert_eq!(pending.len(), 2);
    let mut files = std::collections::HashMap::new();
    for (path, ops) in pending {
        files.insert(path, image(ops));
    }
    s.switch();
    assert!(s.get_agent().is_none() && s.get_vault().is_none());
    s.login_agent("alice".to_string(), "pw".to_string(), record).unwrap();
    let id = s.get_agent().unwrap().id();
    let obj = files.get(&Vault::object_file_path(id, "work")).cloned().unwrap();
    let log = files.get(&Vault::log_file_path(id, "work")).cloned().unwrap();
    s.open_vault("work".to_string(), obj, log).unwrap();
    assert_eq!(s.read_object("k").unwrap().value(), b"w");
    s.delete_object("k").unwrap();
    assert!(matches!(s.read_object("k"), Err(VartaError::ObjectNotFound(_))));
    s.close_vault().unwrap();
    assert!(s.get_vault().is_none());
}
