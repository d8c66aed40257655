//! The operating systems the vault knows how to keep device keys on.
use vstd::prelude::*;
use crate::text::str_equal;

verus! {

#[derive(Debug, Clone, Copy, PartialEq, Eq, Structural)]
pub enum Os {
    Mac,
    Windows,
    Linux,
}

impl Os {
    /// The system that the platform name (as `std::env::consts::OS` gives it)
    /// stands for, if it is a supported one.
    pub fn from_name(name: &str) -> (r: Option<Os>)
        ensures
            r == (if name@ == "macos"@ {
                Some(Os::Mac)
            } else if name@ == "windows"@ {
                Some(Os::Windows)
            } else if name@ == "linux"@ {
                Some(Os::Linux)
            } else {
                None
            }),
    {
        if str_equal(name, "macos") {
            Some(Os::Mac)
        } else if str_equal(name, "windows") {
            Some(Os::Windows)
        } else if str_equal(name, "linux") {
            Some(Os::Linux)
        } else {
            None
        }
    }

    /// Whether the platform keeps device keys in a secure storage that the
    /// vault can use (the macOS keychain or the Windows credential manager).
    pub fn has_secure_storage(self) -> (b: bool)
        ensures
            b == (self == Os::Mac || self == Os::Windows),
    {
        match self {
            Os::Mac => true,
            Os::Windows => true,
            Os::Linux => false,
        }
    }
}

} // verus!
