pub mod keychain;
