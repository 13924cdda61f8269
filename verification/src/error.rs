//! The errors the codec can report.

use vstd::prelude::*;

verus! {

/// Why an encode or decode call failed.
///
/// The three out-of-bounds variants say that decoding asked for one more
/// value of a kind than the corresponding column holds. `Incomplete` says
/// the shape consumed fewer values than some column holds. The two message
/// variants carry a failure raised by a caller-supplied traversal protocol.
#[derive(Debug, Clone, PartialEq, Eq)]
pub enum Error {
    /// Decoding requested a double past the end of the floats column.
    FloatIndexOutOfBounds,
    /// Decoding requested an int64 past the end of the ints column.
    IntIndexOutOfBounds,
    /// Decoding requested a bool past the end of the bools column.
    BoolIndexOutOfBounds,
    /// Decoding left unconsumed values in at least one column.
    Incomplete,
    /// A failure message raised while serializing.
    SerMessage(String),
    /// A failure message raised while deserializing.
    DeMessage(String),
}

} // verus!
