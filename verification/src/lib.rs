//! OpenType Font Variations codec: tuple variation stores, packed point
//! numbers, packed deltas, and the shared item variation store, with
//! verified encoding and decoding.
use vstd::prelude::*;

pub mod itemvariationstore;
pub mod tuplevariationheader;
pub mod tuplevariationstore;
pub mod packeddeltas;
pub mod packedpoints;
pub mod wire;

verus! {

/// Failure of a decode operation, or a declared-size disagreement.
#[derive(Clone, Copy, Debug, PartialEq, Eq, Structural)]
pub enum CodecError {
    /// A decode operation needed more bytes than were available.
    TruncatedInput,
    /// A structure's declared size disagrees with the bytes actually consumed.
    SizeMismatch,
}

/// Represents either a two-dimensional (glyph outline) or one-dimensional
/// (CVT) delta value.
#[derive(Clone, Copy, Debug, PartialEq, Eq, Structural)]
pub enum Delta {
    Delta1D(i16),
    Delta2D(i16, i16),
}

impl Delta {
    /// Assuming that this is a two-dimensional delta, returns the delta as a
    /// X,Y coordinate tuple.
    pub fn get_2d(&self) -> (r: (i16, i16))
        requires
            self is Delta2D,
        ensures
            *self == Delta::Delta2D(r.0, r.1),
    {
        if let Delta::Delta2D(x, y) = self {
            (*x, *y)
        } else {
            proof {
                assert(false);
            }
            (0, 0)
        }
    }
}

} // verus!
