//! Simple relocations and capturing hops.
use vstd::prelude::*;

use crate::checkers_utils::CheckersError;

verus! {

/// Anything that relocates a piece: where it starts and where it lands.
pub trait Move {
    spec fn spec_start_pair(&self) -> (usize, usize);

    spec fn spec_end_pair(&self) -> (usize, usize);

    fn start_pair(&self) -> (r: (usize, usize))
        ensures
            r == self.spec_start_pair(),
    ;

    fn end_pair(&self) -> (r: (usize, usize))
        ensures
            r == self.spec_end_pair(),
    ;
}

/// A non-capturing relocation of one piece.
#[derive(Copy, Clone, PartialEq, Eq, Structural, Debug)]
pub struct SimpleMove {
    pub x_start: usize,
    pub y_start: usize,
    pub x_end: usize,
    pub y_end: usize,
}

impl SimpleMove {
    /// Builds the move after checking that both squares are on the board.
    pub fn new(x_start: usize, y_start: usize, x_end: usize, y_end: usize) -> (r: Result<
        Self,
        CheckersError,
    >)
        ensures
            (x_start < 8 && y_start < 8 && x_end < 8 && y_end < 8) ==> r == Ok::<
                Self,
                CheckersError,
            >(SimpleMove { x_start, y_start, x_end, y_end }),
            !(x_start < 8 && y_start < 8 && x_end < 8 && y_end < 8) ==> r == Err::<
                Self,
                CheckersError,
            >(CheckersError::IndexOutOfBounds),
    {
        if x_start > 7 || y_start > 7 || x_end > 7 || y_end > 7 {
            return Err(CheckersError::IndexOutOfBounds);
        }
        Ok(SimpleMove { x_start, y_start, x_end, y_end })
    }
}

impl Move for SimpleMove {
    open spec fn spec_start_pair(&self) -> (usize, usize) {
        (self.x_start, self.y_start)
    }

    open spec fn spec_end_pair(&self) -> (usize, usize) {
        (self.x_end, self.y_end)
    }

    fn start_pair(&self) -> (r: (usize, usize)) {
        (self.x_start, self.y_start)
    }

    fn end_pair(&self) -> (r: (usize, usize)) {
        (self.x_end, self.y_end)
    }
}

/// One capturing hop: start, landing square, and the enemy square emptied
/// by the hop.
#[derive(Copy, Clone, PartialEq, Eq, Structural, Debug)]
pub struct Jump {
    pub x_start: usize,
    pub y_start: usize,
    pub x_end: usize,
    pub y_end: usize,
    pub x_capture: usize,
    pub y_capture: usize,
}

impl Jump {
    /// Builds the jump after checking that all three squares are on the
    /// board.
    pub fn new(
        x_start: usize,
        y_start: usize,
        x_end: usize,
        y_end: usize,
        x_capture: usize,
        y_capture: usize,
    ) -> (r: Result<Self, CheckersError>)
        ensures
            (x_start < 8 && y_start < 8 && x_end < 8 && y_end < 8 && x_capture < 8 && y_capture
                < 8) ==> r == Ok::<Self, CheckersError>(
                Jump { x_start, y_start, x_end, y_end, x_capture, y_capture },
            ),
            !(x_start < 8 && y_start < 8 && x_end < 8 && y_end < 8 && x_capture < 8 && y_capture
                < 8) ==> r == Err::<Self, CheckersError>(CheckersError::IndexOutOfBounds),
    {
        if x_start > 7 || y_start > 7 || x_end > 7 || y_end > 7 || x_capture > 7 || y_capture > 7 {
            return Err(CheckersError::IndexOutOfBounds);
        }
        Ok(Jump { x_start, y_start, x_end, y_end, x_capture, y_capture })
    }
}

impl Move for Jump {
    open spec fn spec_start_pair(&self) -> (usize, usize) {
        (self.x_start, self.y_start)
    }

    open spec fn spec_end_pair(&self) -> (usize, usize) {
        (self.x_end, self.y_end)
    }

    fn start_pair(&self) -> (r: (usize, usize)) {
        (self.x_start, self.y_start)
    }

    fn end_pair(&self) -> (r: (usize, usize)) {
        (self.x_end, self.y_end)
    }
}

} // verus!
