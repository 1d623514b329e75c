//! Line and column bookkeeping for diagnostics.

use vstd::prelude::*;

verus! {

/// A place in the source text. Positions are plain values: every step of the
/// tokenizer and parser returns a new one and never changes one in place.
#[derive(Clone, Copy, Debug, PartialEq, Eq, Structural)]
pub struct Position {
    pub line: usize,
    pub col: usize,
}

impl Position {
    /// The position `n` characters further along the same line.
    pub open spec fn advance(self, n: nat) -> Position {
        Position { line: self.line, col: (self.col + n) as usize }
    }

    /// Whether a text of `len` characters can be walked from here without the
    /// column leaving the machine's range.
    pub open spec fn fits(self, len: nat) -> bool {
        self.col + len <= usize::MAX
    }

    /// Moves `n` characters along the line.
    pub fn forward(self, n: usize) -> (r: Position)
        requires
            self.fits(n as nat),
        ensures
            r == self.advance(n as nat),
    {
        Position { line: self.line, col: self.col + n }
    }
}

} // verus!
