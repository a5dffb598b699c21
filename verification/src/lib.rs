//! A content-addressable cache library: content digests, wire resource
//! names, pluggable blob stores with a verified in-memory backend, and the
//! protocol-facing handlers for byte transfer, batch storage operations and
//! capability advertisement.
pub mod assoc;
pub mod bytestream;
pub mod capabilities;
pub mod cas;
pub mod config;
pub mod digest;
pub mod directory;
pub mod errors;
pub mod hashing;
pub mod hexstr;
pub mod instance_name;
pub mod memory;
pub mod resource_name;
pub mod store;
