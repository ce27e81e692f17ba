//! Options of a node.

use vstd::prelude::*;
use std::path::PathBuf;

verus! {

/// Options of a node.
pub struct AppConfig {
    /// Whether peers are discovered on the local network (mDNS).
    pub enable_mdns: bool,
    /// Where the key pair is stored, if it is stored at all.
    pub identity_path: Option<PathBuf>,
}

impl Default for AppConfig {
    /// Discovery on, no stored key.
    fn default() -> (c: Self)
        ensures
            c.enable_mdns,
            c.identity_path is None,
    {
        AppConfig { enable_mdns: true, identity_path: None }
    }
}

impl AppConfig {
    /// The default options: discovery on, no stored key.
    pub fn new() -> (c: Self)
        ensures
            c.enable_mdns,
            c.identity_path is None,
    {
        Self::default()
    }

    /// The same options, with the key stored at `path`.
    pub fn with_identity_path(self, path: PathBuf) -> (c: Self)
        ensures
            c.enable_mdns == self.enable_mdns,
            c.identity_path == Some(path),
    {
        let mut c = self;
        c.identity_path = Some(path);
        c
    }

    /// The same options, with discovery on or off.
    pub fn with_mdns(self, enabled: bool) -> (c: Self)
        ensures
            c.enable_mdns == enabled,
            c.identity_path == self.identity_path,
    {
        let mut c = self;
        c.enable_mdns = enabled;
        c
    }
}

} // verus!
