//! Colors and pieces of the game.
use vstd::prelude::*;

verus! {

/// One of the two sides of a game.
#[derive(Copy, Clone, PartialEq, Eq, Structural, Debug)]
pub enum CheckersColor {
    White,
    Black,
}

impl CheckersColor {
    /// The other side: White and Black swap.
    pub fn opposite_color(&self) -> (r: Self)
        ensures
            r == self.spec_opposite(),
    {
        match self {
            CheckersColor::White => CheckersColor::Black,
            CheckersColor::Black => CheckersColor::White,
        }
    }

    pub open spec fn spec_opposite(self) -> Self {
        match self {
            CheckersColor::White => CheckersColor::Black,
            CheckersColor::Black => CheckersColor::White,
        }
    }
}

/// A piece on the board, decoded from a cell value; never stored directly.
#[derive(Copy, Clone, PartialEq, Eq, Structural, Debug)]
pub enum Piece {
    Pawn(CheckersColor),
    Queen(CheckersColor),
}

impl Piece {
    /// The color of the piece, whatever its rank.
    pub fn color(&self) -> (r: CheckersColor)
        ensures
            r == self.spec_color(),
    {
        match self {
            Piece::Pawn(color) => *color,
            Piece::Queen(color) => *color,
        }
    }

    pub open spec fn spec_color(self) -> CheckersColor {
        match self {
            Piece::Pawn(color) => color,
            Piece::Queen(color) => color,
        }
    }

    /// The 4-bit cell code that stores this piece.
    pub fn board_u8_representation(&self) -> (r: u8)
        ensures
            r == self.spec_code(),
    {
        match self {
            Piece::Pawn(CheckersColor::White) => 0b0001,
            Piece::Queen(CheckersColor::White) => 0b0101,
            Piece::Pawn(CheckersColor::Black) => 0b0011,
            Piece::Queen(CheckersColor::Black) => 0b0111,
        }
    }

    pub open spec fn spec_code(self) -> u8 {
        match self {
            Piece::Pawn(CheckersColor::White) => 0b0001,
            Piece::Queen(CheckersColor::White) => 0b0101,
            Piece::Pawn(CheckersColor::Black) => 0b0011,
            Piece::Queen(CheckersColor::Black) => 0b0111,
        }
    }
}

/// Decodes a 3-bit cell value: bit 0 is occupancy, bit 1 the color
/// (0 = white), bit 2 the rank (0 = pawn). Values with bit 0 clear
/// decode to an empty square.
pub open spec fn spec_decode(v: u8) -> Option<Piece> {
    if v == 0b001 {
        Some(Piece::Pawn(CheckersColor::White))
    } else if v == 0b011 {
        Some(Piece::Pawn(CheckersColor::Black))
    } else if v == 0b101 {
        Some(Piece::Queen(CheckersColor::White))
    } else if v == 0b111 {
        Some(Piece::Queen(CheckersColor::Black))
    } else {
        None
    }
}

} // verus!
