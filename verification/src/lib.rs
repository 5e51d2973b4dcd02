//! Field-level PII encryption service core.
//!
//! The library contains the verified heart of an enclave-resident encryption
//! service: the AEAD field cipher and its textual token codec, the store for
//! the data-encryption key, the OpenAPI PII-path resolver, the schema cache,
//! the JSON encryption pipeline, and the configuration rules.

pub mod cache;
pub mod cipher;
pub mod config;
pub mod connector;
pub mod dek;
pub mod error;
pub mod pipeline;
pub mod protocol;
pub mod proxy;
pub mod schema;
pub mod text;
