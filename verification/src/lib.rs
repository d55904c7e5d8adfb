//! A small in-memory recipe store: records keyed by an auto-incrementing
//! identifier, with add/get/update/delete operations and a textual
//! serialization of the whole collection for persistence.

pub mod codec;
pub mod decode;
pub mod encode;
pub mod roundtrip;
pub mod manager;
pub mod recipe;
