//! A session: the device, at most one logged-in agent and at most one open
//! vault of that agent, and the commands on them.
use vstd::prelude::*;
use vstd::utf8::encode_utf8;
use crate::error::VartaError;
use crate::agent::{Agent, agent_id_of, agent_meta_key, agent_vault_key, seals_master_key};
use crate::vault::{Vault, vault_meta_key, lists_key, reopens, DELETED_MARKER_KEY};
use crate::config::{OP_INITIAL, OP_CREATE, OP_UPDATE, OP_DELETE};
use crate::operation::op_record_len;
use crate::storage::storage::Storage;
use crate::storage::components::block::{BLOCK_SIZE, MAX_PLAINTEXT_SIZE};
use crate::vault_object::{VaultObject, ObjectView, object_fits, digest_of};
use crate::device::{Device, device_id_of};
use crate::crypto::primitives::wipe_bytes;
use crate::storage::file::{FileOp, apply_ops};

verus! {

pub struct Session {
    agent: Option<Agent>,
    vault: Option<Vault>,
    device: Device,
}

impl Session {
    pub closed spec fn spec_agent(&self) -> Option<Agent> {
        self.agent
    }

    pub closed spec fn spec_vault(&self) -> Option<Vault> {
        self.vault
    }

    pub closed spec fn spec_device(&self) -> Device {
        self.device
    }

    /// A session on `device` with no agent and no vault.
    pub fn new(device: Device) -> (s: Self)
        ensures
            s.spec_agent() is None,
            s.spec_vault() is None,
            s.spec_device() == device,
    {
        Session { agent: None, vault: None, device }
    }

    pub fn get_agent(&self) -> (a: Option<&Agent>)
        ensures
            a == match self.spec_agent() {
                Some(x) => Some(&x),
                None => None,
            },
    {
        self.agent.as_ref()
    }

    pub fn get_vault(&self) -> (v: Option<&Vault>)
        ensures
            v == match self.spec_vault() {
                Some(x) => Some(&x),
                None => None,
            },
    {
        self.vault.as_ref()
    }

    pub fn device(&self) -> (d: &Device)
        ensures
            *d == self.spec_device(),
    {
        &self.device
    }

    /// Creates the agent `name` and logs it in. Hands back the record that
    /// seals its master key, to be stored at the agent's master key path.
    pub fn create_agent(&mut self, name: String, password: Option<String>) -> (r: Result<Vec<u8>, VartaError>)
        ensures
            r is Ok,
            final(self).spec_vault() == old(self).spec_vault(),
            final(self).spec_device() == old(self).spec_device(),
            final(self).spec_agent() matches Some(a) && a.spec_name() == name@,
            r matches Ok(rec) ==> seals_master_key(
                rec@,
                agent_meta_key(
                    match password {
                        Some(p) => p@,
                        None => Seq::<char>::empty(),
                    },
                    device_id_of(old(self).spec_device().spec_key()),
                ),
                final(self).spec_agent()->0.spec_master_key(),
            ),
    {
        let (agent, record) = Agent::new(name, password, None, &self.device);
        self.agent = Some(agent);
        Ok(record)
    }

    /// Logs in the agent `name` with `password`, given its master key record
    /// (which the caller has found: an agent without one is not found).
    pub fn login_agent(&mut self, name: String, password: String, record: Vec<u8>) -> (r: Result<(), VartaError>)
        ensures
            final(self).spec_vault() == old(self).spec_vault(),
            final(self).spec_device() == old(self).spec_device(),
            r is Err ==> final(self).spec_agent() == old(self).spec_agent(),
            r is Ok ==> (final(self).spec_agent() matches Some(a) && a.spec_name() == name@),
            forall|mk: Seq<u8>|
                mk.len() == 32 && seals_master_key(
                    record@,
                    agent_meta_key(password@, device_id_of(old(self).spec_device().spec_key())),
                    mk,
                ) ==> (r is Ok && final(self).spec_agent()->0.spec_master_key() == mk),
    {
        let agent = match Agent::login(name, password, &self.device, record) {
            Ok(a) => a,
            Err(e) => return Err(e),
        };
        self.agent = Some(agent);
        Ok(())
    }

    /// Logs the agent out and closes the vault, wiping their keys.
    pub fn switch(&mut self)
        ensures
            final(self).spec_agent() is None,
            final(self).spec_vault() is None,
            final(self).spec_device() == old(self).spec_device(),
    {
        if let Some(mut agent) = self.agent.take() {
            agent.wipe();
        }
        if let Some(mut vault) = self.vault.take() {
            vault.wipe();
        }
    }

    /// Creates the vault `name` of the logged-in agent and opens it.
    pub fn new_vault(&mut self, name: String) -> (r: Result<(), VartaError>)
        ensures
            final(self).spec_agent() == old(self).spec_agent(),
            final(self).spec_device() == old(self).spec_device(),
            old(self).spec_agent() is None ==> r == Err::<(), VartaError>(VartaError::NoAgentLoggedIn),
            old(self).spec_agent() is Some ==> (r is Ok <==> op_record_len(
                encode_utf8(name@).len() as int,
                0,
                encode_utf8(OP_INITIAL@).len() as int,
                0,
            ) <= MAX_PLAINTEXT_SIZE),
            r is Err ==> final(self).spec_vault() == old(self).spec_vault(),
            r is Ok ==> {
                let a = old(self).spec_agent()->0;
                &&& old(self).spec_agent() is Some
                &&& final(self).spec_vault() matches Some(v) && v.spec_name() == name@ && v.spec_agent_id()
                    == agent_id_of(a.spec_name()) && v.spec_meta_key() == vault_meta_key(
                    agent_vault_key(a.spec_master_key(), name@),
                    name@,
                ) && v.headers_seal_record() && v.sized() && v.saved()
            },
    {
        let agent = match &self.agent {
            Some(a) => a,
            None => return Err(VartaError::NoAgentLoggedIn),
        };
        let mut v_key = agent.derive_vault_key(name.as_str());
        let r = Vault::new(name, agent.id(), &v_key, &self.device);
        wipe_bytes(&mut v_key);
        match r {
            Ok(vault) => {
                self.vault = Some(vault);
                Ok(())
            },
            Err(e) => Err(e),
        }
    }

    /// Opens the vault `name` of the logged-in agent from the bytes of its
    /// object file and its log (which the caller has found: a vault without
    /// them is not found).
    pub fn open_vault(&mut self, name: String, object_file: Vec<u8>, log_file: Vec<u8>) -> (r: Result<(), VartaError>)
        ensures
            final(self).spec_agent() == old(self).spec_agent(),
            final(self).spec_device() == old(self).spec_device(),
            old(self).spec_agent() is None ==> r == Err::<(), VartaError>(VartaError::NoAgentLoggedIn),
            forall|w: Vault|
                old(self).spec_agent() is Some && #[trigger] reopens(
                    w,
                    name@,
                    agent_vault_key(old(self).spec_agent()->0.spec_master_key(), name@),
                    object_file@,
                    log_file@,
                ) ==> r is Ok,
            r is Err ==> final(self).spec_vault() == old(self).spec_vault(),
            r is Ok ==> {
                let a = old(self).spec_agent()->0;
                &&& old(self).spec_agent() is Some
                &&& final(self).spec_vault() matches Some(v) && v.spec_name() == name@ && v.spec_meta_key()
                    == vault_meta_key(agent_vault_key(a.spec_master_key(), name@), name@) && v.sized()
            },
    {
        let agent = match &self.agent {
            Some(a) => a,
            None => return Err(VartaError::NoAgentLoggedIn),
        };
        let mut v_key = agent.derive_vault_key(name.as_str());
        let r = Vault::open(name, agent.id(), &v_key, object_file, log_file);
        wipe_bytes(&mut v_key);
        match r {
            Ok(vault) => {
                self.vault = Some(vault);
                Ok(())
            },
            Err(e) => Err(e),
        }
    }

    /// Closes the open vault, wiping its keys.
    pub fn close_vault(&mut self) -> (r: Result<(), VartaError>)
        ensures
            final(self).spec_agent() == old(self).spec_agent(),
            final(self).spec_device() == old(self).spec_device(),
            final(self).spec_vault() is None,
            r is Ok <==> old(self).spec_vault() is Some,
            r matches Err(e) ==> e is NoVaultOpened,
    {
        match self.vault.take() {
            Some(mut vault) => {
                vault.wipe();
                Ok(())
            },
            None => Err(VartaError::NoVaultOpened),
        }
    }

    /// Creates the object `key` in the open vault.
    pub fn add_object(&mut self, key: String, value: Vec<u8>) -> (r: Result<(), VartaError>)
        ensures
            final(self).spec_agent() == old(self).spec_agent(),
            final(self).spec_device() == old(self).spec_device(),
            old(self).spec_vault() is None ==> r == Err::<(), VartaError>(VartaError::NoVaultOpened),
            (old(self).spec_vault() matches Some(v) && v.spec_has_object(key@)) ==> r == Err::<(), VartaError>(
                VartaError::ObjectAlreadyExists(key),
            ),
            (old(self).spec_vault() matches Some(v) && !v.spec_has_object(key@) && 65 + encode_utf8(key@).len()
                + value@.len() <= MAX_PLAINTEXT_SIZE && v.room_for_object(key@) && v.can_record(
                old(self).spec_device().spec_id(),
                OP_CREATE@,
                encode_utf8(key@).len() as int,
            )) ==> r is Ok,
            r is Ok ==> old(self).spec_vault() is Some,
            r is Ok ==> final(self).spec_vault() is Some,
            r is Ok && old(self).spec_vault()->0.sized() ==> exists|o: ObjectView|
                #[trigger] final(self).spec_vault()->0.holds_object(key@, o) && o.key == key@ && o.value == value@
                    && object_fits(o) && o.digest.len() == 32,
    {
        let ghost k = key@;
        let ghost val = value@;
        match self.vault.take() {
            Some(mut vault) => {
                let ghost v0 = vault;
                let r = vault.create_object(key, value, &self.device);
                self.vault = Some(vault);
                proof {
                    if r is Ok && v0.sized() {
                        let o = choose|o: ObjectView|
                            #[trigger] vault.holds_object(k, o) && o.key == k && o.value == val && o.status == 0 && o.digest
                                == digest_of(o) && object_fits(o) && o.digest.len() == 32;
                        assert(self.spec_vault()->0.holds_object(k, o));
                        assert(o.key == k && o.value == val && object_fits(o) && o.digest.len() == 32);
                    }
                }
                r
            },
            None => Err(VartaError::NoVaultOpened),
        }
    }

    /// Replaces the value of the object `key` in the open vault.
    #[verifier::rlimit(40)]
    pub fn update_object(&mut self, key: String, value: Vec<u8>) -> (r: Result<(), VartaError>)
        ensures
            final(self).spec_agent() == old(self).spec_agent(),
            final(self).spec_device() == old(self).spec_device(),
            old(self).spec_vault() is None ==> r == Err::<(), VartaError>(VartaError::NoVaultOpened),
            (old(self).spec_vault() matches Some(v) && !v.spec_has_object(key@)) ==> r matches Err(
                VartaError::ObjectNotFound(_),
            ),
            forall|o: ObjectView|
                #![trigger object_fits(o)]
                (old(self).spec_vault() matches Some(v) && v.holds_object(key@, o) && object_fits(o)
                    && o.digest.len() == 32 && 65 + encode_utf8(o.key).len() + value@.len() <= MAX_PLAINTEXT_SIZE
                    && v.spec_storage().spec_storage().spec_index()[v.spec_storage().object_key(key@)].1 == BLOCK_SIZE
                    && v.indexes_fit() && v.can_record(
                    old(self).spec_device().spec_id(),
                    OP_UPDATE@,
                    encode_utf8(o.key).len() as int,
                )) ==> r is Ok,
            r is Ok ==> old(self).spec_vault() is Some && final(self).spec_vault() is Some,
            r is Ok && old(self).spec_vault()->0.sized() ==> forall|o: ObjectView|
                #[trigger] old(self).spec_vault()->0.holds_object(key@, o) ==> final(self).spec_vault()->0.spec_placed(
                    key@,
                ),
            r is Ok && old(self).spec_vault()->0.sized() ==> forall|o: ObjectView|
                #[trigger] old(self).spec_vault()->0.holds_object(key@, o) && object_fits(o) && o.digest.len() == 32
                    ==> exists|n: ObjectView|
                    #[trigger] final(self).spec_vault()->0.holds_object(key@, n) && n == (ObjectView {
                        value: value@,
                        updated_at: n.updated_at,
                        digest: digest_of(n),
                        ..o
                    }),
            r is Ok && old(self).spec_vault()->0.sized() ==> forall|o: ObjectView|
                #[trigger] old(self).spec_vault()->0.holds_object(key@, o) && object_fits(o) && o.digest.len() == 32
                    ==> exists|n: ObjectView|
                    #[trigger] final(self).spec_vault()->0.holds_object(key@, n) && n.key == o.key && n.value == value@
                        && n.digest == digest_of(n) && final(self).spec_vault()->0.spec_last_op()->0.value_hash
                        == n.digest && final(self).spec_vault()->0.spec_last_op()->0.value_key == encode_utf8(n.key),
    {
        let ghost val = value@;
        match self.vault.take() {
            Some(mut vault) => {
                let ghost v0 = vault;
                let r = vault.update_object(key.as_str(), value, &self.device);
                self.vault = Some(vault);
                proof {
                    assert(self.spec_vault()->0 == vault);
                    if r is Ok && v0.sized() {
                        assert forall|o: ObjectView|
                            #[trigger] v0.holds_object(key@, o) && object_fits(o) && o.digest.len() == 32 implies exists|
                            n: ObjectView,
                        |
                            #[trigger] vault.holds_object(key@, n) && n == (ObjectView {
                                value: val,
                                updated_at: n.updated_at,
                                digest: digest_of(n),
                                ..o
                            }) by {
                            let n = choose|n: ObjectView|
                                #[trigger] vault.holds_object(key@, n) && n == (ObjectView {
                                    value: val,
                                    updated_at: n.updated_at,
                                    digest: digest_of(n),
                                    ..o
                                });
                            assert(self.spec_vault()->0.holds_object(key@, n));
                        }
                        assert forall|o: ObjectView|
                            #[trigger] v0.holds_object(key@, o) && object_fits(o) && o.digest.len() == 32 implies exists|
                            n: ObjectView,
                        |
                            #[trigger] vault.holds_object(key@, n) && n.key == o.key && n.value == val && n.digest
                                == digest_of(n) && vault.spec_last_op()->0.value_hash == n.digest
                                && vault.spec_last_op()->0.value_key == encode_utf8(n.key) by {
                            let n = choose|n: ObjectView|
                                #[trigger] vault.holds_object(key@, n) && n.key == o.key && n.value == val && n.digest
                                    == digest_of(n) && vault.spec_last_op()->0.value_hash == n.digest
                                    && vault.spec_last_op()->0.value_key == encode_utf8(n.key);
                            assert(self.spec_vault()->0.holds_object(key@, n));
                        }
                    }
                }
                r
            },
            None => Err(VartaError::NoVaultOpened),
        }
    }

    /// The keys of all objects in the open vault.
    pub fn list_objects(&self) -> (r: Result<Vec<String>, VartaError>)
        ensures
            self.spec_vault() is None ==> r matches Err(VartaError::NoVaultOpened),
            (self.spec_vault() matches Some(v) && v.objects_readable()) ==> r is Ok,
            r matches Ok(keys) ==> (self.spec_vault() is Some && keys@.len()
                == self.spec_vault()->0.spec_storage().spec_storage().spec_index().dom().len()),
            r matches Ok(keys) ==> forall|key: Seq<char>, o: ObjectView|
                #[trigger] self.spec_vault()->0.holds_object(key, o) && object_fits(o) && o.digest.len() == 32
                    ==> lists_key(keys@, o.key),
    {
        match &self.vault {
            Some(vault) => vault.list_objects(),
            None => Err(VartaError::NoVaultOpened),
        }
    }

    /// The object `key` of the open vault.
    pub fn read_object(&self, key: &str) -> (r: Result<VaultObject, VartaError>)
        ensures
            self.spec_vault() is None ==> r matches Err(VartaError::NoVaultOpened),
            (self.spec_vault() matches Some(v) && !v.spec_has_object(key@)) ==> r matches Err(
                VartaError::ObjectNotFound(_),
            ),
            forall|o: ObjectView|
                #![trigger object_fits(o)]
                (self.spec_vault() matches Some(v) && v.holds_object(key@, o)) && object_fits(o) && o.digest.len() == 32
                    ==> (r matches Ok(x) && x@ == o),
    {
        match &self.vault {
            Some(vault) => vault.read_object(key),
            None => Err(VartaError::NoVaultOpened),
        }
    }

    /// Removes the object `key` from the open vault.
    pub fn delete_object(&mut self, key: &str) -> (r: Result<(), VartaError>)
        ensures
            final(self).spec_agent() == old(self).spec_agent(),
            final(self).spec_device() == old(self).spec_device(),
            old(self).spec_vault() is None ==> r == Err::<(), VartaError>(VartaError::NoVaultOpened),
            (old(self).spec_vault() matches Some(v) && !v.spec_has_object(key@)) ==> r matches Err(
                VartaError::ObjectNotFound(_),
            ),
            (old(self).spec_vault() matches Some(v) && v.spec_storage().spec_storage().stored_bytes(
                v.spec_storage().object_key(key@),
            ) is Some && Storage::index_fits(
                v.spec_storage().spec_storage().spec_index().remove(v.spec_storage().object_key(key@)),
            ) && v.can_record(
                old(self).spec_device().spec_id(),
                OP_DELETE@,
                encode_utf8(DELETED_MARKER_KEY@).len() as int,
            )) ==> r is Ok,
            r is Ok ==> (final(self).spec_vault() matches Some(v) && !v.spec_has_object(key@)),
    {
        match &mut self.vault {
            Some(vault) => vault.delete_object(key, &self.device),
            None => Err(VartaError::NoVaultOpened),
        }
    }

    /// Hands out the file effects of the open vault not yet applied, each
    /// with the path of its file: the object file's, then the log's.
    pub fn take_pending(&mut self) -> (r: Vec<(String, Vec<FileOp>)>)
        ensures
            final(self).spec_agent() == old(self).spec_agent(),
            final(self).spec_device() == old(self).spec_device(),
            old(self).spec_vault() is None ==> r@.len() == 0 && final(self).spec_vault() is None,
            old(self).spec_vault() matches Some(v) ==> {
                let os = v.spec_storage().spec_storage();
                let ls = v.spec_audit().spec_storage();
                &&& r@.len() == 2
                &&& r@[0].0@ == os.spec_path()
                &&& apply_ops(os.on_disk(), r@[0].1@) == os.contents()
                &&& r@[1].0@ == ls.spec_path()
                &&& apply_ops(ls.on_disk(), r@[1].1@) == ls.contents()
                &&& final(self).spec_vault() matches Some(w) && w.spec_storage().spec_storage().contents()
                    == os.contents() && w.spec_audit().spec_storage().contents() == ls.contents()
                    && w.spec_storage().spec_storage().on_disk() == os.contents()
                    && w.spec_audit().spec_storage().on_disk() == ls.contents()
            },
    {
        let mut out: Vec<(String, Vec<FileOp>)> = Vec::new();
        match &mut self.vault {
            Some(vault) => {
                let object_path = vault.object_path().to_string();
                let log_path = vault.log_path().to_string();
                let (a, b) = vault.take_pending();
                out.push((object_path, a));
                out.push((log_path, b));
            },
            None => {},
        }
        out
    }
}

} // verus!
