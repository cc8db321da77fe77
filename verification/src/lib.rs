//! Bencode decoding and torrent metainfo mapping.
//!
//! The crate has two layers. The decoder turns a byte buffer into a generic
//! bencode value tree (integers, byte strings, lists, dictionaries), with a
//! configurable nesting cap and a strict mode that enforces canonical
//! dictionary key order. The mapper projects such a tree onto the typed
//! torrent metainfo schema (`Torrent`, `Info`, `File`, `Node`), with explicit
//! per-field rename, optionality and type rules. Both layers are pure: the
//! caller supplies the bytes and receives a value or a typed error.

pub mod decode;
pub mod encode;
pub mod errors;
pub mod grammar;
pub mod mapper;
pub mod roundtrip;
pub mod schema;
pub mod value;
