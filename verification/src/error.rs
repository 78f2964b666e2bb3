use vstd::prelude::*;

verus! {

/// Why decoding stopped.
#[derive(Clone, Copy, Debug, PartialEq, Eq, Structural)]
pub enum DecodeError {
    /// A field lies, in part or whole, past the end of the buffer.
    OutOfBounds,
    /// The running sum of coordinate deltas left the range of a signed
    /// 16-bit coordinate.
    CoordinateOverflow,
    /// A contour ends at a point that the glyph does not have.
    ContourOutOfRange,
}

/// The result `r` is what `expected` describes: the same error, or a value
/// with that view.
pub open spec fn decodes_to<T: View>(
    r: Result<T, DecodeError>,
    expected: Result<T::V, DecodeError>,
) -> bool {
    match r {
        Ok(value) => expected == Ok::<T::V, DecodeError>(value@),
        Err(e) => expected == Err::<T::V, DecodeError>(e),
    }
}

} // verus!
