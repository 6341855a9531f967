//! The failures a decode operation can surface.

use vstd::prelude::*;

verus! {

/// Why a decode operation failed.
///
/// Every failure is terminal for the operation that raised it; the engine
/// never retries, and its state after a failure must not be reused.
#[derive(Clone, Copy, Debug, PartialEq, Eq, Structural)]
pub enum Error {
    /// The byte source ended before the requested bytes could be read.
    IoFailure,
    /// A varint's tenth byte was neither 0 nor 1.
    MalformedVarint,
    /// A tag carried a wire type the format does not define; holds that wire type.
    UnknownWireType(u8),
    /// A tag carried one of the deprecated group wire types.
    DeprecatedGroup,
    /// A payload was not valid UTF-8 where a string was expected.
    InvalidUtf8,
    /// A read would consume more bytes than the current framing scope allows.
    BudgetExceeded,
}

} // verus!
