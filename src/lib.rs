//! A distributed persistent key-value store that speaks HTTP.
//!
//! A directory server keeps the index from key to blob server and the
//! registry of blob servers with their load counters; it answers data
//! requests with redirects. A blob server keeps the values on disk under
//! paths derived from the MD5 digest of the key.
//!
//! This crate holds the logic of both servers: key extraction and routing,
//! the backend registry and its placement policy, the responses of each
//! server, and the on-disk layout of blobs.
pub mod keys;
pub mod master;
pub mod registry;
pub mod service;
pub mod volume;
