use vstd::prelude::*;

verus! {

/// Every way an operation of this library can fail.
#[derive(Debug, Clone, Copy, PartialEq, Eq, Structural)]
pub enum PngError {
    /// A type code holds a byte outside `A-Z` / `a-z`, or is not four bytes long.
    InvalidTypeCode,
    /// The buffer ends before the framing it declares.
    Truncated,
    /// The checksum stored in a chunk (`expected`) differs from the one
    /// recomputed over its type code and payload (`actual`).
    CrcMismatch { expected: u32, actual: u32 },
    /// The first eight bytes are not the PNG signature.
    BadSignature,
    /// No chunk has the requested type code.
    NotFound,
    /// A payload asked for as text is not valid UTF-8.
    Utf8DecodeError,
}

} // verus!
