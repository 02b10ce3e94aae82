//! The binary NBT format: its layout, its writers and its parsers.

pub mod deserialize;
pub mod format;
pub mod roundtrip;
pub mod serialize;
pub mod validity;
