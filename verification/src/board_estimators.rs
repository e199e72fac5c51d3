//! Static evaluation of board positions.
use vstd::prelude::*;

use crate::board::{playable, Board};
use crate::checkers_utils::{spec_game_ended, MoveExecutor};
use crate::pieces::{CheckersColor, Piece};

verus! {

/// Clamps a mathematical integer into the i32 range.
pub open spec fn clamp_i32(v: int) -> i32 {
    if v > i32::MAX {
        i32::MAX
    } else if v < i32::MIN {
        i32::MIN
    } else {
        v as i32
    }
}

/// A strategy that scores a board from one color's point of view. Each
/// implementation fixes its score as a spec function and promises that
/// its executable scoring returns exactly that.
pub trait Estimator {
    spec fn spec_estimate(
        &self,
        board: Board,
        maximising_color: CheckersColor,
        check_for_endgame: bool,
    ) -> i32;

    fn estimate(
        &self,
        board: Board,
        maximising_color: CheckersColor,
        check_for_endgame: bool,
    ) -> (r: i32)
        ensures
            r == self.spec_estimate(board, maximising_color, check_for_endgame),
    ;
}

/// The signed worth of the square at row-major position `pos`: white
/// pieces count positive, black negative, pawns and queens each by their
/// weight.
pub open spec fn square_worth(b: Board, pw: int, qw: int, pos: int) -> int {
    if !playable(pos / 8, pos % 8) {
        0
    } else {
        match b.spec_piece(pos / 8, pos % 8) {
            Some(Piece::Pawn(CheckersColor::White)) => pw,
            Some(Piece::Pawn(CheckersColor::Black)) => -pw,
            Some(Piece::Queen(CheckersColor::White)) => qw,
            Some(Piece::Queen(CheckersColor::Black)) => -qw,
            None => 0,
        }
    }
}

/// The material balance summed over the squares at positions `pos..64`.
pub open spec fn material_from(b: Board, pw: int, qw: int, pos: int) -> int
    decreases 64 - pos,
{
    if pos < 0 || pos >= 64 {
        0
    } else {
        square_worth(b, pw, qw, pos) + material_from(b, pw, qw, pos + 1)
    }
}

/// Material counting with configurable pawn and queen weights.
pub struct CountEstimator {
    pub pawn_weight: usize,
    pub queen_weight: usize,
}

impl CountEstimator {
    pub fn new(pawn_weight: usize, queen_weight: usize) -> (r: Self)
        ensures
            r.pawn_weight == pawn_weight,
            r.queen_weight == queen_weight,
    {
        Self { pawn_weight, queen_weight }
    }
}

impl Estimator for CountEstimator {
    /// With the endgame check on, a finished game scores the extreme in
    /// the loser's disfavour; otherwise the material balance, clamped,
    /// signed for white and negated for black positions only through the
    /// piece signs (the maximising color flips only the endgame extremes).
    open spec fn spec_estimate(
        &self,
        board: Board,
        maximising_color: CheckersColor,
        check_for_endgame: bool,
    ) -> i32 {
        if check_for_endgame && spec_game_ended(board, CheckersColor::White) {
            match maximising_color {
                CheckersColor::White => i32::MIN,
                CheckersColor::Black => i32::MAX,
            }
        } else if check_for_endgame && spec_game_ended(board, CheckersColor::Black) {
            match maximising_color {
                CheckersColor::White => i32::MAX,
                CheckersColor::Black => i32::MIN,
            }
        } else {
            clamp_i32(
                material_from(
                    board,
                    self.pawn_weight as i32 as int,
                    self.queen_weight as i32 as int,
                    0,
                ),
            )
        }
    }

    fn estimate(
        &self,
        board: Board,
        maximising_color: CheckersColor,
        check_for_endgame: bool,
    ) -> (r: i32) {
        if check_for_endgame {
            if MoveExecutor::has_game_ended(board, CheckersColor::White) {
                return match maximising_color {
                    CheckersColor::White => i32::MIN,
                    CheckersColor::Black => i32::MAX,
                };
            } else if MoveExecutor::has_game_ended(board, CheckersColor::Black) {
                return match maximising_color {
                    CheckersColor::White => i32::MAX,
                    CheckersColor::Black => i32::MIN,
                };
            }
        }
        let pw = #[verifier::truncate] (self.pawn_weight as i32);
        let qw = #[verifier::truncate] (self.queen_weight as i32);
        let mut score: i64 = 0;
        let mut pos: usize = 0;
        while pos < 64
            invariant
                pos <= 64,
                -0x8000_0000i64 * (pos as i64) <= score <= 0x8000_0000i64 * (pos as i64),
                score + material_from(board, pw as int, qw as int, pos as int) == material_from(
                    board,
                    pw as int,
                    qw as int,
                    0,
                ),
            decreases 64 - pos,
        {
            let x = pos / 8;
            let y = pos % 8;
            if (x + y) % 2 == 1 {
                match board.get_at(x, y) {
                    Ok(Some(Piece::Pawn(CheckersColor::White))) => {
                        score = score + pw as i64;
                    },
                    Ok(Some(Piece::Pawn(CheckersColor::Black))) => {
                        score = score - pw as i64;
                    },
                    Ok(Some(Piece::Queen(CheckersColor::White))) => {
                        score = score + qw as i64;
                    },
                    Ok(Some(Piece::Queen(CheckersColor::Black))) => {
                        score = score - qw as i64;
                    },
                    _ => {},
                }
            }
            pos = pos + 1;
        }
        if score > i32::MAX as i64 {
            i32::MAX
        } else if score < i32::MIN as i64 {
            i32::MIN
        } else {
            score as i32
        }
    }
}

} // verus!
