//! Decoding and validation of torrent metainfo descriptors.
//!
//! A descriptor is a single bencoded value: byte strings, integers, lists
//! and dictionaries in a length-prefixed binary encoding. The library turns
//! one in-memory buffer into a validated, strongly typed model of the
//! announce endpoint and the file layout the descriptor declares, or into a
//! structured error naming the first problem found.

pub mod decode;
pub mod errors;
pub mod mapper;
pub mod model;
pub mod order;
pub mod parse;
pub mod paths;
pub mod schema;
mod text;
pub mod torrent;
pub mod validate;
pub mod value;
