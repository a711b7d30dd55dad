use vstd::prelude::*;

verus! {

/// The error kinds reported by the core. Every operation returns a `Result`
/// carrying the specific kind; no failure is coerced to a default value, and
/// none of these is fatal to the caller.
#[derive(Clone, Copy, Debug, PartialEq, Eq, Structural)]
pub enum Error {
    /// A square reference was not two characters in `a-h` / `1-8`.
    InvalidNotation,
    /// Coordinate arithmetic left the 8x8 grid.
    OutOfBounds,
    /// A legality query was made on a square with no piece on it.
    EmptySource,
    /// The requested destination is not in the mover's legal set.
    IllegalMove,
    /// The piece being moved does not belong to the player whose turn it is.
    WrongTurn,
    /// A board layout did not decode to exactly 64 valid tiles.
    MalformedLayout,
}

} // verus!
