//! Configuration validation for the enclave service.
//!
//! Values are read from the environment at startup by the surrounding
//! binary; the rules that make a configuration acceptable live here.

use vstd::prelude::*;

verus! {

/// Whether `c` is a white-space character, as Rust's `char::is_whitespace`
/// classifies it (the Unicode `White_Space` property).
pub open spec fn spec_is_space(c: char) -> bool {
    let u = c as u32;
    u == 9 || u == 10 || u == 11 || u == 12 || u == 13 || u == 32 || u == 0x85 || u == 0xA0
        || u == 0x1680 || (0x2000 <= u && u <= 0x200A) || u == 0x2028 || u == 0x2029
        || u == 0x202F || u == 0x205F || u == 0x3000
}

/// Whether `s` holds nothing but white space.
pub open spec fn spec_is_blank(s: Seq<char>) -> bool {
    forall|i: int| 0 <= i < s.len() ==> spec_is_space(#[trigger] s[i])
}

/// Whether `c` is white space.
fn is_space(c: char) -> (r: bool)
    ensures
        r == spec_is_space(c),
{
    let u = c as u32;
    u == 9 || u == 10 || u == 11 || u == 12 || u == 13 || u == 32 || u == 0x85 || u == 0xA0
        || u == 0x1680 || (0x2000 <= u && u <= 0x200A) || u == 0x2028 || u == 0x2029
        || u == 0x202F || u == 0x205F || u == 0x3000
}

/// Reject a value that is empty or all white space, naming the variable.
pub fn ensure_non_empty(value: &str, name: &str) -> (r: Result<(), String>)
    ensures
        r is Ok <==> !spec_is_blank(value@),
        r matches Err(m) ==> m@ == name@ + " is required and must not be empty"@,
{
    let len = value.unicode_len();
    let mut i: usize = 0;
    while i < len
        invariant
            0 <= i <= len,
            len == value@.len(),
            forall|k: int| 0 <= k < i ==> spec_is_space(#[trigger] value@[k]),
        decreases len - i,
    {
        if !is_space(value.get_char(i)) {
            return Ok(());
        }
        i += 1;
    }
    let mut m = name.to_owned();
    m.append(" is required and must not be empty");
    proof {
        assert(m@ =~= name@ + " is required and must not be empty"@);
    }
    Err(m)
}

/// Validated enclave service configuration.
#[derive(Clone)]
pub struct Config {
    /// Secret-store identifier of the envelope-encrypted DEK. Required.
    pub secret_arn: String,
    /// KMS key ID used to decrypt the DEK. Required.
    pub kms_key_id: String,
    /// Object-store bucket containing schema files. Required.
    pub s3_bucket: String,
    /// Object-store key prefix for schema files.
    pub s3_prefix: String,
    /// HTTP header used to identify which schema to apply.
    pub schema_header_name: String,
    /// How often (seconds) to re-fetch and rotate the cached DEK.
    pub dek_rotation_interval_secs: u64,
    /// How often (seconds) to refresh the cached schemas.
    pub schema_refresh_interval_secs: u64,
    /// Vsock CID of the parent host's proxy. Required.
    pub vsock_proxy_cid: u32,
    /// Vsock port of the parent host's proxy.
    pub vsock_proxy_port: u32,
    /// Port the enclave HTTPS server listens on.
    pub tls_port: u16,
    /// Filesystem path to the PEM-encoded TLS certificate chain. Required.
    pub tls_cert_path: String,
    /// Filesystem path to the PEM-encoded TLS private key. Required.
    pub tls_key_path: String,
    /// Telemetry collector endpoint. Required.
    pub otel_exporter_otlp_endpoint: String,
    /// Log level (e.g. `info`, `debug`).
    pub log_level: String,
}

/// What makes a configuration acceptable: every required text field holds
/// more than white space, the vsock CID is non-zero, and both background
/// intervals are strictly positive.
pub open spec fn spec_config_valid(c: Config) -> bool {
    !spec_is_blank(c.secret_arn@) && !spec_is_blank(c.kms_key_id@) && !spec_is_blank(
        c.s3_bucket@,
    ) && !spec_is_blank(c.otel_exporter_otlp_endpoint@) && !spec_is_blank(c.tls_cert_path@)
        && !spec_is_blank(c.tls_key_path@) && c.vsock_proxy_cid != 0
        && c.dek_rotation_interval_secs != 0 && c.schema_refresh_interval_secs != 0
}

impl Config {
    /// Validate all fields, returning a descriptive error on the first
    /// failure; succeeds exactly on acceptable configurations.
    pub fn validate(&self) -> (r: Result<(), String>)
        ensures
            r is Ok <==> spec_config_valid(*self),
    {
        if let Err(m) = ensure_non_empty(self.secret_arn.as_str(), "SECRET_ARN") {
            return Err(m);
        }
        if let Err(m) = ensure_non_empty(self.kms_key_id.as_str(), "KMS_KEY_ID") {
            return Err(m);
        }
        if let Err(m) = ensure_non_empty(self.s3_bucket.as_str(), "S3_BUCKET") {
            return Err(m);
        }
        if let Err(m) = ensure_non_empty(
            self.otel_exporter_otlp_endpoint.as_str(),
            "OTEL_EXPORTER_OTLP_ENDPOINT",
        ) {
            return Err(m);
        }
        if let Err(m) = ensure_non_empty(self.tls_cert_path.as_str(), "TLS_CERT_PATH") {
            return Err(m);
        }
        if let Err(m) = ensure_non_empty(self.tls_key_path.as_str(), "TLS_KEY_PATH") {
            return Err(m);
        }
        if self.vsock_proxy_cid == 0 {
            return Err("VSOCK_PROXY_CID must be a non-zero vsock CID".to_owned());
        }
        if self.dek_rotation_interval_secs == 0 {
            return Err("DEK_ROTATION_INTERVAL_SECS must be > 0".to_owned());
        }
        if self.schema_refresh_interval_secs == 0 {
            return Err("SCHEMA_REFRESH_INTERVAL_SECS must be > 0".to_owned());
        }
        Ok(())
    }
}

/// The default object-store key prefix for schema files.
pub fn default_s3_prefix() -> (r: String)
    ensures
        r@ == "schemas/"@,
{
    "schemas/".to_owned()
}

/// The default schema-identifying header name.
pub fn default_schema_header() -> (r: String)
    ensures
        r@ == "X-Schema-Name"@,
{
    "X-Schema-Name".to_owned()
}

/// The default DEK rotation interval, in seconds.
pub fn default_dek_rotation_interval() -> (r: u64)
    ensures
        r == 3600,
{
    3600
}

/// The default schema refresh interval, in seconds.
pub fn default_schema_refresh_interval() -> (r: u64)
    ensures
        r == 300,
{
    300
}

/// The default vsock port of the parent host's proxy.
pub fn default_vsock_proxy_port() -> (r: u32)
    ensures
        r == 8000,
{
    8000
}

/// The default HTTPS listen port.
pub fn default_tls_port() -> (r: u16)
    ensures
        r == 443,
{
    443
}

/// The default log level.
pub fn default_log_level() -> (r: String)
    ensures
        r@ == "info"@,
{
    "info".to_owned()
}

} // verus!
