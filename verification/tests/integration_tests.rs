use std::collections::HashMap;
use varta::agent::Agent;
use varta::device::Device;
use varta::session::Session;
use varta::error::VartaError;
use varta::storage::file::FileOp;
use varta::vault::Vault;

/// Files kept in memory, changed by the effects the library hands out.
struct Disk {
    files: HashMap<String, Vec<u8>>,
}

impl Disk {
    fn new() -> Self {
        Disk { files: HashMap::new() }
    }

    fn apply(&mut self, path: &str, ops: Vec<FileOp>) {
        for op in ops {
            match op {
                FileOp::Create | FileOp::Truncate => {
                    self.files.insert(path.to_string(), Vec::new());
                }
                FileOp::WriteAt(off, bytes) => {
                    let f = self.files.entry(path.to_string()).or_default();
                    let off = off as usize;
                    if f.len() < off + bytes.len() {
                        f.resize(off + bytes.len(), 0);
                    }
                    f[off..off + bytes.len()].copy_from_slice(&bytes);
                }
                FileOp::Append(bytes) => {
                    self.files.entry(path.to_string()).or_default().extend_from_slice(&bytes);
                }
                FileOp::Sync => {}
                FileOp::Remove => {
                    self.files.remove(path);
                }
            }
        }
    }

    fn flush(&mut self, vault: &mut Vault) {
        let object_path = vault.object_path().to_string();
        let log_path = vault.log_path().to_string();
        let (a, b) = vault.take_pending();
        self.apply(&object_path, a);
        self.apply(&log_path, b);
    }

    fn open(&self, name: &str, agent: &Agent) -> Result<Vault, VartaError> {
        let object_path = Vault::object_file_path(agent.id(), name);
        let log_path = Vault::log_file_path(agent.id(), name);
        let key = agent.derive_vault_key(name);
        match (self.files.get(&object_path).cloned(), self.files.get(&log_path).cloned()) {
            (Some(object_file), Some(log_file)) => Vault::open(name.to_string(), agent.id(), &key, object_file, log_file),
            _ => Err(VartaError::VaultNotFound(name.to_string())),
        }
    }
}

fn device() -> Device {
    Device::new([42u8; 32])
}

fn new_vault(disk: &mut Disk, name: &str, agent: &Agent, device: &Device) -> Vault {
    let key = agent.derive_vault_key(name);
    let mut vault = Vault::new(name.to_string(), agent.id(), &key, device).unwrap();
    disk.flush(&mut vault);
    vault
}

#[test]
fn test_agent_creation_and_login() {
    let device = device();
    let agent_name = "test_agent".to_string();
    let password = "secure_password123".to_string();

    let (agent, record) = Agent::new(agent_name.clone(), Some(password.clone()), None, &device);
    assert_eq!(agent.get_name(), agent_name);

    let loaded_agent = Agent::login(agent_name.clone(), password, &device, record).unwrap();
    assert_eq!(loaded_agent.get_name(), agent_name);
}

#[test]
fn test_vault_creation_and_opening() {
    let device = device();
    let mut disk = Disk::new();
    let (agent, _record) = Agent::new("vault_test_agent".to_string(), Some("password123".to_string()), None, &device);
    let vault_name = "my_vault".to_string();

    let vault = new_vault(&mut disk, &vault_name, &agent, &device);
    assert_eq!(vault.get_name(), vault_name);

    let opened_vault = disk.open(&vault_name, &agent).unwrap();
    assert_eq!(opened_vault.get_name(), vault_name);
}

#[test]
fn test_vault_object_lifecycle() {
    let device = device();
    let mut disk = Disk::new();
    let (agent, _record) = Agent::new("object_test_agent".to_string(), Some("password123".to_string()), None, &device);
    let mut vault = new_vault(&mut disk, "test_vault", &agent, &device);

    let key = "github_token".to_string();
    let value = b"ghp_1234567890abcdef".to_vec();

    vault.create_object(key.clone(), value.clone(), &device).unwrap();

    let objects = vault.list_objects().unwrap();
    assert!(objects.contains(&key));

    let obj = vault.read_object(&key).unwrap();
    assert_eq!(obj.value(), value.as_slice());

    let new_value = b"ghp_newtoken9876543210".to_vec();
    vault.update_object(&key, new_value.clone(), &device).unwrap();

    let updated_obj = vault.read_object(&key).unwrap();
    assert_eq!(updated_obj.value(), new_value.as_slice());

    vault.delete_object(&key, &device).unwrap();
    let objects_after_delete = vault.list_objects().unwrap();
    assert!(!objects_after_delete.contains(&key));
}

#[test]
fn test_vault_persistence() {
    let device = device();
    let mut disk = Disk::new();
    let agent_name = "persistence_agent".to_string();
    let password = "password123".to_string();
    let vault_name = "persistent_vault".to_string();

    let (agent, record) = Agent::new(agent_name.clone(), Some(password.clone()), None, &device);
    let mut vault = new_vault(&mut disk, &vault_name, &agent, &device);

    let key1 = "secret1".to_string();
    let value1 = b"value1".to_vec();
    let key2 = "secret2".to_string();
    let value2 = b"value2".to_vec();

    vault.create_object(key1.clone(), value1.clone(), &device).unwrap();
    vault.create_object(key2.clone(), value2.clone(), &device).unwrap();
    disk.flush(&mut vault);
    drop(vault);

    let loaded_agent = Agent::login(agent_name.clone(), password, &device, record).unwrap();
    let loaded_vault = disk.open(&vault_name, &loaded_agent).unwrap();

    let objects = loaded_vault.list_objects().unwrap();
    assert_eq!(objects.len(), 2);
    assert!(objects.contains(&key1));
    assert!(objects.contains(&key2));

    assert_eq!(loaded_vault.read_object(&key1).unwrap().value(), value1.as_slice());
    assert_eq!(loaded_vault.read_object(&key2).unwrap().value(), value2.as_slice());
}

#[test]
fn test_multiple_vaults_per_agent() {
    let device = device();
    let mut disk = Disk::new();
    let agent_name = "multi_vault_agent".to_string();
    let password = "password123".to_string();

    let (agent, record) = Agent::new(agent_name.clone(), Some(password.clone()), None, &device);

    let vault1 = new_vault(&mut disk, "work_vault", &agent, &device);
    let vault2 = new_vault(&mut disk, "personal_vault", &agent, &device);

    assert_eq!(vault1.get_name(), "work_vault");
    assert_eq!(vault2.get_name(), "personal_vault");

    let loaded_agent = Agent::login(agent_name, password, &device, record).unwrap();
    let loaded_vault1 = disk.open("work_vault", &loaded_agent).unwrap();
    let loaded_vault2 = disk.open("personal_vault", &loaded_agent).unwrap();

    assert_eq!(loaded_vault1.get_name(), "work_vault");
    assert_eq!(loaded_vault2.get_name(), "personal_vault");
}

#[test]
#[should_panic(expected = "Agent not found")]
fn test_login_nonexistent_agent() {
    let disk = Disk::new();
    let mut session = Session::new(device());
    let name = "nonexistent_agent".to_string();
    match disk.files.get(&Agent::master_key_path(Agent::get_id(&name))).cloned() {
        Some(record) => session.login_agent(name, "password".to_string(), record).unwrap(),
        None => panic!("Agent not found: {}", name),
    }
}

#[test]
#[should_panic(expected = "Vault not found")]
fn test_open_nonexistent_vault() {
    let disk = Disk::new();
    let mut session = Session::new(device());
    session.create_agent("test_agent".to_string(), Some("password123".to_string())).unwrap();
    let id = session.get_agent().unwrap().id();
    let name = "nonexistent_vault".to_string();
    let object_file = disk.files.get(&Vault::object_file_path(id, &name)).cloned();
    let log_file = disk.files.get(&Vault::log_file_path(id, &name)).cloned();
    match (object_file, log_file) {
        (Some(object_file), Some(log_file)) => session.open_vault(name, object_file, log_file).unwrap(),
        _ => panic!("Vault not found: {}", name),
    }
}

#[test]
fn login_with_a_wrong_password_fails() {
    let device = device();
    let (_agent, record) = Agent::new("alice".to_string(), Some("right".to_string()), None, &device);
    let r = Agent::login("alice".to_string(), "wrong".to_string(), &device, record.clone());
    assert!(matches!(r, Err(VartaError::DecryptionFailed)));
    let other_device = Device::new([43u8; 32]);
    let r = Agent::login("alice".to_string(), "right".to_string(), &other_device, record);
    assert!(matches!(r, Err(VartaError::DecryptionFailed)));
}

#[test]
fn login_gives_back_the_master_key() {
    let device = device();
    let (agent, record) = Agent::new("bob".to_string(), None, Some([8u8; 32]), &device);
    assert_eq!(agent.derive_vault_key("v"), Agent::new("x".to_string(), None, Some([8u8; 32]), &device).0.derive_vault_key("v"));
    let loaded = Agent::login("bob".to_string(), String::new(), &device, record).unwrap();
    assert_eq!(loaded.derive_vault_key("v"), agent.derive_vault_key("v"));
    assert_ne!(loaded.derive_vault_key("w"), agent.derive_vault_key("v"));
}

#[test]
fn master_key_record_is_a_borsh_pair() {
    let device = device();
    let (_agent, record) = Agent::new("carol".to_string(), Some("pw".to_string()), None, &device);
    let (nonce, ct): (Vec<u8>, Vec<u8>) = borsh::from_slice(&record).unwrap();
    assert_eq!(nonce.len(), 12);
    assert_eq!(ct.len(), 32 + 16);
    assert!(matches!(
        Agent::login("carol".to_string(), "pw".to_string(), &device, vec![1, 2, 3]),
        Err(VartaError::InvalidMasterKeyRecord)
    ));
}

#[test]
fn existing_object_cannot_be_created_twice() {
    let device = device();
    let mut disk = Disk::new();
    let (agent, _r) = Agent::new("dave".to_string(), None, None, &device);
    let mut vault = new_vault(&mut disk, "v", &agent, &device);
    vault.create_object("k".to_string(), b"1".to_vec(), &device).unwrap();
    assert!(matches!(vault.create_object("k".to_string(), b"2".to_vec(), &device), Err(VartaError::ObjectAlreadyExists(k)) if k == "k"));
    assert_eq!(vault.read_object("k").unwrap().value(), b"1");
    assert!(matches!(vault.read_object("nope"), Err(VartaError::ObjectNotFound(k)) if k == "nope"));
    assert!(matches!(vault.update_object("nope", vec![], &device), Err(VartaError::ObjectNotFound(_))));
    assert!(matches!(vault.delete_object("nope", &device), Err(VartaError::ObjectNotFound(_))));
}

#[test]
fn object_too_large_for_a_block_is_refused() {
    let device = device();
    let mut disk = Disk::new();
    let (agent, _r) = Agent::new("erin".to_string(), None, None, &device);
    let mut vault = new_vault(&mut disk, "v", &agent, &device);
    let r = vault.create_object("big".to_string(), vec![0u8; 1000], &device);
    assert!(matches!(r, Err(VartaError::PlaintextTooLarge(_))));
    assert!(!vault.exists_object("big"));
}

#[test]
fn reopened_vault_keeps_its_identity_and_last_operation() {
    let device = device();
    let mut disk = Disk::new();
    let (agent, _r) = Agent::new("frank".to_string(), None, None, &device);
    let mut vault = new_vault(&mut disk, "v", &agent, &device);
    vault.create_object("a".to_string(), b"x".to_vec(), &device).unwrap();
    disk.flush(&mut vault);
    let state = vault.state_hash();
    let reopened = disk.open("v", &agent).unwrap();
    assert_eq!(reopened.get_agent_id(), agent.id());
    assert_eq!(reopened.state_hash(), state);
    assert_eq!(reopened.derive_vault_key(), vault.derive_vault_key());
}

#[test]
fn vault_opened_with_another_key_fails() {
    let device = device();
    let mut disk = Disk::new();
    let (agent, _r) = Agent::new("gina".to_string(), None, None, &device);
    let _vault = new_vault(&mut disk, "v", &agent, &device);
    let stem = Vault::file_path(agent.id(), "v");
    let object_path = std::path::Path::new(&stem).with_extension("svrt").to_string_lossy().into_owned();
    let log_path = format!("{}.avrt", stem);
    let r = Vault::open(
        "v".to_string(),
        agent.id(),
        &[0u8; 32],
        disk.files.get(&object_path).cloned().unwrap(),
        disk.files.get(&log_path).cloned().unwrap(),
    );
    assert!(matches!(r, Err(VartaError::DecryptionFailed)));
}

#[test]
fn vault_paths_follow_the_agent_and_vault_names() {
    let id = Agent::get_id("agent");
    let dir = Vault::hash_dir_name(id, "vault");
    assert_eq!(dir.len(), 32);
    assert_eq!(Vault::get_path(id, "vault"), format!("{}/{}", Agent::get_path(id), dir));
    assert!(Agent::get_path(id).starts_with("secrets/"));
    assert_eq!(Agent::master_key_path(id), format!("{}/master_key", Agent::get_path(id)));
    assert_eq!(Vault::file_path(id, "vault"), format!("{}/varta", Vault::get_path(id, "vault")));
    assert_eq!(Vault::object_file_path(id, "vault"), format!("{}/varta.svrt", Vault::get_path(id, "vault")));
    assert_eq!(Vault::log_file_path(id, "vault"), format!("{}/varta.avrt", Vault::get_path(id, "vault")));
}

#[test]
fn updating_or_deleting_one_object_leaves_the_others() {
    let device = device();
    let mut disk = Disk::new();
    let (agent, _record) = Agent::new("frame_agent".to_string(), Some("pw".to_string()), None, &device);
    let mut vault = new_vault(&mut disk, "frame_vault", &agent, &device);

    vault.create_object("a".to_string(), b"alpha".to_vec(), &device).unwrap();
    vault.create_object("b".to_string(), b"bravo".to_vec(), &device).unwrap();
    vault.create_object("c".to_string(), b"charlie".to_vec(), &device).unwrap();

    // a value of another size moves the block of "b" to the end of the file
    vault.update_object("b", b"bravo, but longer".to_vec(), &device).unwrap();
    assert_eq!(vault.read_object("a").unwrap().value(), b"alpha");
    assert_eq!(vault.read_object("c").unwrap().value(), b"charlie");
    assert_eq!(vault.read_object("b").unwrap().value(), b"bravo, but longer");

    vault.delete_object("a", &device).unwrap();
    assert!(matches!(vault.read_object("a"), Err(VartaError::ObjectNotFound(_))));
    assert_eq!(vault.read_object("b").unwrap().value(), b"bravo, but longer");
    assert_eq!(vault.read_object("c").unwrap().value(), b"charlie");

    disk.flush(&mut vault);
    let reopened = disk.open("frame_vault", &agent).unwrap();
    assert_eq!(reopened.read_object("b").unwrap().value(), b"bravo, but longer");
    assert_eq!(reopened.read_object("c").unwrap().value(), b"charlie");
}

#[test]
fn vault_name_must_leave_room_for_the_first_operation() {
    let device = device();
    let (agent, _record) = Agent::new("name_agent".to_string(), Some("pw".to_string()), None, &device);

    let longest = "n".repeat(601);
    let key = agent.derive_vault_key(&longest);
    assert!(Vault::new(longest.clone(), agent.id(), &key, &device).is_ok());

    let too_long = "n".repeat(602);
    let key = agent.derive_vault_key(&too_long);
    assert!(matches!(
        Vault::new(too_long, agent.id(), &key, &device),
        Err(VartaError::PlaintextTooLarge(_))
    ));
}

#[test]
fn wiped_vault_forgets_its_objects() {
    let device = device();
    let mut disk = Disk::new();
    let (agent, _record) = Agent::new("wipe_agent".to_string(), Some("pw".to_string()), None, &device);
    let mut vault = new_vault(&mut disk, "wipe_vault", &agent, &device);
    vault.create_object("k".to_string(), b"v".to_vec(), &device).unwrap();
    assert_eq!(vault.list_objects().unwrap().len(), 1);
    vault.wipe();
    assert_eq!(vault.get_name(), "wipe_vault");
    assert!(vault.list_objects().unwrap().is_empty());
    assert!(matches!(vault.read_object("k"), Err(VartaError::ObjectNotFound(_))));
}
