//! Verified core of a plugin build tool: content fingerprinting for
//! incremental builds, route extraction, FFI shim source generation,
//! response envelope encoding, compiler progress parsing, the process
//! guard's termination rule, and the build orchestration decisions.
pub mod cache;
pub mod config;
pub mod envelope;
pub mod guard;
pub mod hashing;
pub mod orchestrator;
pub mod progress;
pub mod routes;
pub mod shim;
pub mod text;
pub mod versions;
