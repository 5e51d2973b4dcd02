//! Configuration validation for the vsock-proxy sidecar.
//!
//! The sidecar forwards TCP connections to the enclave's vsock port; the
//! surrounding binary reads its settings from the environment and holds
//! them to the rules here.

use vstd::prelude::*;
use crate::config::{ensure_non_empty, spec_is_blank};

verus! {

/// Validated vsock-proxy configuration.
#[derive(Clone)]
pub struct Config {
    /// TCP port to accept incoming connections on.
    pub listen_port: u16,
    /// Vsock CID of the enclave on this node. Required.
    pub enclave_cid: u32,
    /// Vsock port the enclave TLS server listens on.
    pub enclave_port: u32,
    /// Address of the main application container. Required.
    pub main_app_addr: String,
    /// Log level.
    pub log_level: String,
}

/// What makes a proxy configuration acceptable: a non-zero enclave CID and
/// a main-application address holding more than white space.
pub open spec fn spec_proxy_config_valid(c: Config) -> bool {
    c.enclave_cid != 0 && !spec_is_blank(c.main_app_addr@)
}

impl Config {
    /// Validate all fields, returning a descriptive error on the first
    /// failure; succeeds exactly on acceptable configurations.
    pub fn validate(&self) -> (r: Result<(), String>)
        ensures
            r is Ok <==> spec_proxy_config_valid(*self),
    {
        if self.enclave_cid == 0 {
            return Err("ENCLAVE_CID must be a non-zero vsock CID".to_owned());
        }
        if let Err(m) = ensure_non_empty(self.main_app_addr.as_str(), "MAIN_APP_ADDR") {
            return Err(m);
        }
        Ok(())
    }
}

/// The default TCP listen port.
pub fn default_listen_port() -> (r: u16)
    ensures
        r == 8443,
{
    8443
}

/// The default enclave vsock port.
pub fn default_enclave_port() -> (r: u32)
    ensures
        r == 443,
{
    443
}

/// The default log level.
pub fn default_log_level() -> (r: String)
    ensures
        r@ == "info"@,
{
    "info".to_owned()
}

} // verus!
