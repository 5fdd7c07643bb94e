//! Coarse process configuration.
use vstd::prelude::*;

verus! {

/// Whether the process runs as a listening server node or as a client.
#[derive(Debug, Clone)]
pub enum AppMode {
    Server,
    Client,
}

/// A resolved process configuration.
#[derive(Debug, Clone)]
pub struct GlobalConfig {
    pub is_debug: bool,
    pub mode: AppMode,
    pub listen_address: String,
    pub remote_address: Option<String>,
    pub is_encrypt_channel: bool,
}

} // verus!
