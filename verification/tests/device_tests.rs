use sha2::Digest;
use varta::crypto::sign::ED25519_SIG_LEN;
use varta::device::Device;
use varta::error::VartaError;

const DEVICE_KEY: [u8; 32] = [11u8; 32];

#[test]
fn test_device_creation() {
    let device = Device::new(DEVICE_KEY);
    let device_id = device.get_id();

    assert_eq!(device_id.len(), 32);
}

#[test]
fn test_device_id_consistency() {
    let device1 = Device::new(DEVICE_KEY);
    let device2 = Device::new(DEVICE_KEY);

    let id1 = device1.get_id();
    let id2 = device2.get_id();

    assert_eq!(id1, id2, "Device ID should be consistent across instances");
}

#[test]
fn test_device_signing() {
    let device = Device::new(DEVICE_KEY);
    let message = b"Test message for device signing";

    let signature = device.sign(message);

    assert_eq!(signature.len(), ED25519_SIG_LEN);
}

#[test]
fn test_device_signature_deterministic() {
    let device = Device::new(DEVICE_KEY);
    let message = b"Same message";

    let sig1 = device.sign(message);
    let sig2 = device.sign(message);

    assert_eq!(sig1, sig2, "Signatures should be deterministic for the same message");
}

#[test]
fn test_device_signature_different_messages() {
    let device = Device::new(DEVICE_KEY);
    let message1 = b"First message";
    let message2 = b"Second message";

    let sig1 = device.sign(message1);
    let sig2 = device.sign(message2);

    assert_ne!(sig1, sig2, "Signatures should differ for different messages");
}

#[test]
fn device_id_is_the_sha256_of_the_key() {
    let device = Device::new(DEVICE_KEY);
    let expected: [u8; 32] = sha2::Sha256::digest(DEVICE_KEY).into();
    assert_eq!(device.get_id(), expected);
    assert_ne!(Device::new([12u8; 32]).get_id(), expected);
}

#[test]
fn device_from_key_needs_32_bytes() {
    assert!(matches!(Device::from_key(&[1u8; 31]), Err(VartaError::InvalidDeviceKeyLength)));
    let d = Device::from_key(&DEVICE_KEY).unwrap();
    assert_eq!(d.get_id(), Device::new(DEVICE_KEY).get_id());
}
