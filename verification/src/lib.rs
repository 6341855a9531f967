//! The decoding half of a protocol-buffers wire-format library: tags,
//! varints, zig-zag integers, fixed-width little-endian scalars,
//! length-delimited framing and packed repeated fields, with exact length
//! accounting so that malformed or truncated input is detected rather than
//! silently over- or under-read.

pub mod errors;
pub mod message;
pub mod packed;
pub mod reader;
pub mod source;
pub mod wire;

pub use errors::Error;
pub use message::MessageRead;
pub use packed::Packed;
pub use reader::Reader;
pub use source::{ByteSource, SliceSource};
