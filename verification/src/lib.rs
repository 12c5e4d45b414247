//! Verified core of a CRC32 hashing and verification tool: checksum
//! streaming, checksum text, size arguments, manifests and reports.

pub mod crc;
pub mod text;
pub mod size;
pub mod display;
pub mod manifest;
pub mod export;
pub mod report;
pub mod inputs;
pub mod bench;
