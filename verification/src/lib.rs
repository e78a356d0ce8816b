//! Decoder for Unity "UnityFS" asset bundles: the outer block container, the
//! serialized files embedded in it, and their type trees and object tables.
//!
//! Decoding works on bytes held in memory and is read-only. `asset_bundle`
//! decodes the container and drives `asset` over every serialized file;
//! `type_info`, `class_info`, `object_info`, `reference` and
//! `local_object_entry` decode the tables of a serialized file;
//! `binary_reader` and `read_ext` read scalars and strings; `decompress` and
//! `digest` reach the codecs and the hash; `constants` resolves string
//! references; `layout` writes a file's head out and shows that decoding
//! reads it back.

pub mod asset;
pub mod asset_bundle;
pub mod binary_reader;
pub mod class_info;
pub mod constants;
pub mod container_info;
pub mod decompress;
pub mod digest;
pub mod endian;
pub mod error;
pub mod layout;
pub mod local_object_entry;
pub mod object_info;
pub mod read_ext;
pub mod reference;
pub mod type_info;
