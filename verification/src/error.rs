//! Parse failures of the mesh and texture loaders.
//!
//! A parse failure is fatal: the caller aborts before any rendering, so no
//! partial result is ever emitted. Out-of-range inputs handed to the
//! rasterizers are not errors of this kind but contract violations of the
//! caller, and the rasterizers' preconditions rule them out.

use vstd::prelude::*;

verus! {

/// Why a mesh or texture input was rejected.
#[derive(Clone, Copy, Debug, PartialEq, Eq, Structural)]
pub enum ParseError {
    /// The input ended before the structure it promised was complete.
    TruncatedInput,
    /// A header field holds a value the decoder does not support.
    UnsupportedFormat,
    /// A face element is not of the expected shape, or an index does not
    /// fit the platform's address range.
    MalformedFace,
    /// A face index is zero, which the one-based source format cannot mean.
    ZeroFaceIndex,
}

} // verus!
