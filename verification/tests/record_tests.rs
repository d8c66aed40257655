use std::collections::BTreeMap;
use sha2::Digest;
use varta::device::Device;
use varta::error::VartaError;
use varta::operation::Operation;
use varta::vault_object::VaultObject;

fn sha256(parts: &[&[u8]]) -> [u8; 32] {
    let mut h = sha2::Sha256::new();
    for p in parts {
        h.update(p);
    }
    h.finalize().into()
}

#[test]
fn object_record_is_the_borsh_layout_of_its_fields() {
    let obj = VaultObject::new_at("github".to_string(), b"token".to_vec(), 1_700_000_000);
    let bytes = obj.to_bytes().unwrap();
    let expected = borsh::to_vec(&(
        1u8,
        "github".to_string(),
        b"token".to_vec(),
        0u64,
        *obj.digest(),
        1_700_000_000u64,
        1_700_000_000u64,
    ))
    .unwrap();
    assert_eq!(bytes, expected);
}

#[test]
fn object_digest_covers_key_value_status_and_times() {
    let obj = VaultObject::new_at("k".to_string(), b"v".to_vec(), 5);
    let expected = sha256(&[b"k", b"v", &0u64.to_le_bytes(), &5u64.to_le_bytes(), &5u64.to_le_bytes()]);
    assert_eq!(*obj.digest(), expected);
    assert_eq!(obj.hash(), expected);
}

#[test]
fn object_record_reads_back() {
    let mut obj = VaultObject::new_at("name".to_string(), vec![0, 1, 2, 255], 10);
    obj.set_status(3);
    obj.update_at(vec![9, 9], 20);
    let back = VaultObject::from_bytes(&obj.to_bytes().unwrap()).unwrap();
    assert_eq!(back.key(), "name");
    assert_eq!(back.value(), &[9, 9]);
    assert_eq!(back.status(), 3);
    assert_eq!(back.created_at(), 10);
    assert_eq!(back.updated_at(), 20);
    assert_eq!(back.digest(), obj.digest());
    assert_eq!(back.hash(), *obj.digest());
}

#[test]
fn update_and_status_renew_the_digest() {
    let mut obj = VaultObject::new_at("a".to_string(), b"1".to_vec(), 1);
    let d0 = *obj.digest();
    obj.update_at(b"2".to_vec(), 2);
    assert_ne!(*obj.digest(), d0);
    assert_eq!(obj.created_at(), 1);
    assert_eq!(obj.updated_at(), 2);
    let d1 = *obj.digest();
    obj.set_status(7);
    assert_ne!(*obj.digest(), d1);
    assert_eq!(*obj.digest(), obj.hash());
}

#[test]
fn malformed_object_records_are_refused() {
    let bytes = VaultObject::new_at("k".to_string(), b"v".to_vec(), 1).to_bytes().unwrap();
    assert!(matches!(VaultObject::from_bytes(&bytes[..bytes.len() - 1]), Err(VartaError::RecordDecodeFailed)));
    let mut longer = bytes.clone();
    longer.push(0);
    assert!(matches!(VaultObject::from_bytes(&longer), Err(VartaError::RecordDecodeFailed)));
    let mut bad_utf8 = bytes.clone();
    bad_utf8[5] = 0xff;
    assert!(matches!(VaultObject::from_bytes(&bad_utf8), Err(VartaError::RecordDecodeFailed)));
    assert!(matches!(VaultObject::from_bytes(&[]), Err(VartaError::RecordDecodeFailed)));
}

type Head = ([u8; 32], [u8; 32], String, u64, BTreeMap<[u8; 32], u64>, u64, String, Vec<u8>);
type Tail = ([u8; 32], [u8; 32], [u8; 32], [u8; 32], [u8; 32], Vec<u8>);

#[test]
fn initial_operation_is_sealed_by_the_device() {
    let device = Device::new([1u8; 32]);
    let op = Operation::initial_at([2u8; 32], "vault", &device, 77);
    let bytes = op.to_bytes().unwrap();
    let (head, tail): (Head, Tail) = borsh::from_slice(&bytes).unwrap();
    assert_eq!(head.0, device.get_id());
    assert_eq!(head.1, [2u8; 32]);
    assert_eq!(head.2, "vault");
    assert_eq!(head.3, 0);
    assert!(head.4.is_empty());
    assert_eq!(head.5, 77);
    assert_eq!(head.6, "initial");
    assert!(head.7.is_empty());
    assert_eq!(tail.0, [0u8; 32]);
    assert_eq!(tail.2, [0u8; 32]);
    let op_hash = sha256(&[
        &head.0,
        &head.1,
        &0u64.to_le_bytes(),
        &77u64.to_le_bytes(),
        b"initial",
        &[0u8; 32],
        &[0u8; 32],
        &[0u8; 32],
    ]);
    assert_eq!(tail.3, op_hash);
    assert_eq!(op.op_hash(), op_hash);
    assert_eq!(tail.4, sha256(&[&[0u8; 32], &op_hash]));
    assert_eq!(tail.5, device.sign(&tail.4).to_vec());
    let vk = ed25519_dalek::SigningKey::from_bytes(&[1u8; 32]).verifying_key();
    let sig = ed25519_dalek::Signature::from_slice(&tail.5).unwrap();
    assert!(ed25519_dalek::Verifier::verify(&vk, &tail.4, &sig).is_ok());
}

#[test]
fn next_operation_advances_the_device_counter_and_links_the_chain() {
    let device = Device::new([1u8; 32]);
    let first = Operation::initial_at([2u8; 32], "vault", &device, 1);
    let obj = VaultObject::new_at("k".to_string(), b"v".to_vec(), 2);
    let second = Operation::new_at(&device, [2u8; 32], "vault", [5u8; 32], &obj, "create_object", &first, 3).unwrap();
    let third = Operation::new_at(&device, [2u8; 32], "vault", [6u8; 32], &obj, "update_object", &second, 4).unwrap();
    assert_eq!(second.device_clock(), 1);
    assert_eq!(third.device_clock(), 2);
    let (head, tail): (Head, Tail) = borsh::from_slice(&third.to_bytes().unwrap()).unwrap();
    assert_eq!(head.4.len(), 1);
    assert_eq!(head.4.get(&device.get_id()), Some(&2));
    assert_eq!(head.7, b"k".to_vec());
    assert_eq!(tail.0, obj.hash());
    assert_eq!(tail.1, [6u8; 32]);
    assert_eq!(tail.2, second.op_hash());
    assert_eq!(tail.4, sha256(&[&second.op_hash(), &third.op_hash()]));
    let op_hash = sha256(&[
        &head.0,
        &head.1,
        &2u64.to_le_bytes(),
        &4u64.to_le_bytes(),
        b"update_object",
        b"k",
        &obj.hash(),
        &[6u8; 32],
        &second.op_hash(),
        &2u64.to_le_bytes(),
    ]);
    assert_eq!(third.op_hash(), op_hash);
}

#[test]
fn other_devices_keep_their_counters() {
    let a = Device::new([1u8; 32]);
    let b = Device::new([2u8; 32]);
    let obj = VaultObject::new_at("k".to_string(), b"v".to_vec(), 2);
    let first = Operation::initial_at([0u8; 32], "v", &a, 1);
    let op1 = Operation::new_at(&a, [0u8; 32], "v", [0u8; 32], &obj, "create_object", &first, 2).unwrap();
    let op2 = Operation::new_at(&b, [0u8; 32], "v", [0u8; 32], &obj, "update_object", &op1, 3).unwrap();
    let op3 = Operation::new_at(&a, [0u8; 32], "v", [0u8; 32], &obj, "update_object", &op2, 4).unwrap();
    let (head, _tail): (Head, Tail) = borsh::from_slice(&op3.to_bytes().unwrap()).unwrap();
    assert_eq!(head.4.get(&a.get_id()), Some(&2));
    assert_eq!(head.4.get(&b.get_id()), Some(&1));
    assert_eq!(op2.device_clock(), 1);
}

#[test]
fn operation_record_reads_back() {
    let device = Device::new([1u8; 32]);
    let first = Operation::initial_at([2u8; 32], "vault", &device, 1);
    let obj = VaultObject::new_at("k".to_string(), b"v".to_vec(), 2);
    let second = Operation::new_at(&device, [2u8; 32], "vault", [5u8; 32], &obj, "create_object", &first, 3).unwrap();
    let bytes = second.to_bytes().unwrap();
    let back = Operation::from_bytes(&bytes).unwrap();
    assert_eq!(back.to_bytes().unwrap(), bytes);
    assert_eq!(back.op_hash(), second.op_hash());
    assert_eq!(back.op_iter_hash(), second.op_iter_hash());
    assert!(matches!(Operation::from_bytes(&bytes[..bytes.len() - 1]), Err(VartaError::RecordDecodeFailed)));
}

#[test]
fn clock_entries_are_read_in_order_with_later_entries_winning() {
    let device = Device::new([1u8; 32]);
    let op = Operation::initial_at([2u8; 32], "v", &device, 1);
    let bytes = op.to_bytes().unwrap();
    let (head, tail): (Head, Tail) = borsh::from_slice(&bytes).unwrap();
    let entries: Vec<([u8; 32], u64)> = vec![([9u8; 32], 1), ([3u8; 32], 4), ([9u8; 32], 7)];
    let raw = borsh::to_vec(&(
        (head.0, head.1, head.2.clone(), head.3, entries, head.5, head.6.clone(), head.7.clone()),
        tail.clone(),
    ))
    .unwrap();
    let decoded = Operation::from_bytes(&raw).unwrap();
    let mut expected_clock = BTreeMap::new();
    expected_clock.insert([3u8; 32], 4u64);
    expected_clock.insert([9u8; 32], 7u64);
    let expected = borsh::to_vec(&((head.0, head.1, head.2, head.3, expected_clock, head.5, head.6, head.7), tail)).unwrap();
    assert_eq!(decoded.to_bytes().unwrap(), expected);
}
