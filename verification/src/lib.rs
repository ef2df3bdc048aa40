//! Read-only access to a local content-addressed blob store and the
//! build-versioning structures layered above it: checksum primitives, the
//! store's shared-memory descriptor, per-bucket hash indices, the chunked
//! record container, the paged encoding table, and the keyed manifest
//! decryption, each parsed from raw bytes with a proved contract.

pub mod asset_io;
pub mod blte;
pub mod bytes;
pub mod casc;
pub mod chunked_data;
pub mod crypto;
pub mod guid;
pub mod hash;
pub mod tact;
pub mod tact_manifest;
pub mod texture;
