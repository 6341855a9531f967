//! The capability through which nested messages are decoded.

use vstd::prelude::*;

use crate::errors::Error;
use crate::reader::Reader;
use crate::source::ByteSource;

verus! {

/// A message type that can decode itself from a reader.
///
/// Implementations are supplied by generated or hand-written message types
/// outside this crate; the engine invokes them for nested messages and makes
/// no assumption about how many bytes they consume.
pub trait MessageRead: Sized {
    /// Decodes one value of the implementing type from the reader.
    fn from_reader<R: ByteSource>(r: &mut Reader<R>) -> Result<Self, Error>;
}

} // verus!
