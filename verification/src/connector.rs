//! Routing rules for the vsock connector that carries AWS API calls out of
//! the enclave.
//!
//! Each AWS service endpoint is reached through a dedicated vsock port on
//! the parent host, offset from a configured base port; the mapping from a
//! service hostname to its port lives here. The connector's transport
//! plumbing is the surrounding binary's concern.

use vstd::prelude::*;
use crate::text::{spec_has_prefix, str_eq, str_has_prefix};

verus! {

/// The vsock port that serves `host`: the base port plus 1 for KMS, 2 for
/// the secret store, 3 for the object store; an unknown service falls back
/// to the KMS port so the error is visible.
pub open spec fn spec_vsock_port(host: Seq<char>, base_port: u32) -> u32
    recommends
        base_port + 3 <= u32::MAX,
{
    if spec_has_prefix(host, "kms."@) {
        (base_port + 1) as u32
    } else if spec_has_prefix(host, "secretsmanager."@) {
        (base_port + 2) as u32
    } else if spec_has_prefix(host, "s3."@) || host == "s3.amazonaws.com"@ {
        (base_port + 3) as u32
    } else {
        (base_port + 1) as u32
    }
}

/// Maps an AWS service hostname to a vsock port number on the parent host.
pub fn vsock_port(host: &str, base_port: u32) -> (r: u32)
    requires
        base_port + 3 <= u32::MAX,
    ensures
        r == spec_vsock_port(host@, base_port),
{
    if str_has_prefix(host, "kms.") {
        base_port + 1
    } else if str_has_prefix(host, "secretsmanager.") {
        base_port + 2
    } else if str_has_prefix(host, "s3.") || str_eq(host, "s3.amazonaws.com") {
        base_port + 3
    } else {
        base_port + 1
    }
}

/// Connection parameters for the vsock routes to the parent host: the
/// host's CID and the base port of its per-service proxy ports.
#[derive(Clone, Copy)]
pub struct VsockRawConnector {
    /// Vsock CID of the parent host.
    pub cid: u32,
    /// Base vsock port; each AWS service is an offset from it.
    pub base_port: u32,
}

impl VsockRawConnector {
    /// Create a new connector.
    pub fn new(cid: u32, base_port: u32) -> (r: VsockRawConnector)
        ensures
            r.cid == cid,
            r.base_port == base_port,
    {
        VsockRawConnector { cid, base_port }
    }
}

} // verus!
