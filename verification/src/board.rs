//! The packed board: 32 playable squares, four bits each, in one `u128`.
//!
//! Each playable square owns one 4-bit group. The low three bits are the
//! cell value (bit 0: occupied, bit 1: color, bit 2: rank) and bit 3 is the
//! transient "excluded" marker used during capture-chain search. Writing a
//! cell value never disturbs the excluded bit, and marking a square excluded
//! never disturbs any cell value.
use vstd::prelude::*;

use crate::checkers_utils::CheckersError;
use crate::pieces::{spec_decode, CheckersColor, Piece};

verus! {

/// A square is playable when it is on the board and dark: coordinates in
/// 0..8 whose sum is odd.
pub open spec fn playable(x: int, y: int) -> bool {
    0 <= x < 8 && 0 <= y < 8 && (x + y) % 2 == 1
}

/// Bit offset of the 4-bit group that stores the playable square (x, y).
pub open spec fn square_shift(x: int, y: int) -> int {
    16 * x + 4 * (y / 2)
}

/// The row of the playable square stored at 4-bit group `n` (0..32).
pub open spec fn nib_x(n: int) -> int {
    n / 4
}

/// The column of the playable square stored at 4-bit group `n` (0..32).
pub open spec fn nib_y(n: int) -> int {
    2 * (n % 4) + if n / 4 % 2 == 0 {
        1int
    } else {
        0int
    }
}

#[derive(Copy, Clone)]
pub struct Board {
    board: u128,
}

impl Board {
    pub const EMPTY: u8 = 0b0000;

    pub const WHITE_PAWN: u8 = 0b0001;

    pub const WHITE_QUEEN: u8 = 0b0101;

    pub const BLACK_PAWN: u8 = 0b0011;

    pub const BLACK_QUEEN: u8 = 0b0111;

    /// The raw packed representation.
    pub closed spec fn raw(self) -> u128 {
        self.board
    }

    /// The 3-bit cell value of the playable square (x, y).
    pub open spec fn spec_cell(self, x: int, y: int) -> u8 {
        (((self.raw() >> (square_shift(x, y) as u128)) & 7) as u8)
    }

    /// Whether the playable square (x, y) carries the excluded marker.
    pub open spec fn spec_excluded(self, x: int, y: int) -> bool {
        (self.raw() >> (square_shift(x, y) as u128)) & 8 == 8
    }

    /// The board with the cell value of (x, y) overwritten; the excluded
    /// bit of (x, y) and all other squares keep their contents.
    pub closed spec fn spec_set_cell(self, x: int, y: int, v: u8) -> Board {
        Board {
            board: (self.raw() & !(7u128 << (square_shift(x, y) as u128))) | ((v as u128) << (
            square_shift(x, y) as u128)),
        }
    }

    /// The board with the excluded marker of (x, y) set; everything else
    /// keeps its contents.
    pub closed spec fn spec_set_excluded(self, x: int, y: int) -> Board {
        Board { board: self.raw() | (8u128 << (square_shift(x, y) as u128)) }
    }

    /// The board with every excluded marker cleared and every cell kept.
    pub closed spec fn spec_reset_excluded(self) -> Board {
        Board { board: self.raw() & 0x7777_7777_7777_7777_7777_7777_7777_7777u128 }
    }

    /// The piece on the playable square (x, y), if any.
    pub open spec fn spec_piece(self, x: int, y: int) -> Option<Piece> {
        spec_decode(self.spec_cell(x, y))
    }
}

/// A cell write stores a value below 8, so every cell value reads back
/// below 8.
pub broadcast proof fn lemma_cell_bound(b: Board, x: int, y: int)
    ensures
        #[trigger] b.spec_cell(x, y) < 8,
{
    let r = b.raw();
    let s = square_shift(x, y) as u128;
    assert((((r >> s) & 7) as u8) < 8) by (bit_vector);
}

pub(crate) proof fn lemma_shift_bounds(x: int, y: int)
    requires
        playable(x, y),
    ensures
        0 <= square_shift(x, y) <= 124,
        square_shift(x, y) % 4 == 0,
{
}

pub(crate) proof fn lemma_shift_inj(x: int, y: int, i: int, j: int)
    requires
        playable(x, y),
        playable(i, j),
        !(i == x && j == y),
    ensures
        square_shift(x, y) != square_shift(i, j),
{
    if square_shift(x, y) == square_shift(i, j) {
        assert(4 * x + y / 2 == 4 * i + j / 2);
        assert(0 <= y / 2 < 4 && 0 <= j / 2 < 4);
        assert(x == i);
        assert(y / 2 == j / 2);
        assert((x + y) % 2 == 1 && (i + j) % 2 == 1);
        assert(y % 2 == j % 2);
        assert(y == y / 2 * 2 + y % 2 && j == j / 2 * 2 + j % 2);
        assert(false);
    }
}

proof fn bv_set_cell(b: u128, s: u128, t: u128, v: u128)
    by (bit_vector)
    requires
        s <= 124,
        t <= 124,
        s % 4 == 0,
        t % 4 == 0,
        v < 8,
    ensures
        (((b & !(7u128 << s)) | (v << s)) >> s) & 7 == v,
        (((b & !(7u128 << s)) | (v << s)) >> s) & 8 == (b >> s) & 8,
        s != t ==> (((b & !(7u128 << s)) | (v << s)) >> t) & 7 == (b >> t) & 7,
        s != t ==> (((b & !(7u128 << s)) | (v << s)) >> t) & 8 == (b >> t) & 8,
{
}

proof fn bv_set_excluded(b: u128, s: u128, t: u128)
    by (bit_vector)
    requires
        s <= 124,
        t <= 124,
        s % 4 == 0,
        t % 4 == 0,
    ensures
        ((b | (8u128 << s)) >> s) & 7 == (b >> s) & 7,
        ((b | (8u128 << s)) >> s) & 8 == 8,
        s != t ==> ((b | (8u128 << s)) >> t) & 7 == (b >> t) & 7,
        s != t ==> ((b | (8u128 << s)) >> t) & 8 == (b >> t) & 8,
{
}

proof fn bv_reset_excluded(b: u128, t: u128)
    by (bit_vector)
    requires
        t <= 124,
        t % 4 == 0,
    ensures
        ((b & 0x7777_7777_7777_7777_7777_7777_7777_7777u128) >> t) & 7 == (b >> t) & 7,
        ((b & 0x7777_7777_7777_7777_7777_7777_7777_7777u128) >> t) & 8 == 0,
{
}

/// What a cell write does: the named square takes the new value, every
/// other square and every excluded bit keep their contents.
pub broadcast proof fn lemma_set_cell(b: Board, x: int, y: int, v: u8, i: int, j: int)
    requires
        playable(x, y),
        playable(i, j),
        v < 8,
    ensures
        (#[trigger] b.spec_set_cell(x, y, v).spec_cell(i, j)) == if i == x && j == y {
            v
        } else {
            b.spec_cell(i, j)
        },
        b.spec_set_cell(x, y, v).spec_excluded(i, j) == b.spec_excluded(i, j),
{
    lemma_shift_bounds(x, y);
    lemma_shift_bounds(i, j);
    let s = square_shift(x, y) as u128;
    let t = square_shift(i, j) as u128;
    if !(i == x && j == y) {
        lemma_shift_inj(x, y, i, j);
    }
    bv_set_cell(b.raw(), s, t, v as u128);
    assert(((v as u128) & 7) as u8 == v) by (bit_vector)
        requires
            v < 8,
    ;
}

/// What marking a square excluded does: the named square's excluded bit is
/// set, every cell value and every other excluded bit keep their contents.
pub broadcast proof fn lemma_set_excluded(b: Board, x: int, y: int, i: int, j: int)
    requires
        playable(x, y),
        playable(i, j),
    ensures
        (#[trigger] b.spec_set_excluded(x, y).spec_excluded(i, j)) == if i == x && j == y {
            true
        } else {
            b.spec_excluded(i, j)
        },
        b.spec_set_excluded(x, y).spec_cell(i, j) == b.spec_cell(i, j),
{
    lemma_shift_bounds(x, y);
    lemma_shift_bounds(i, j);
    let s = square_shift(x, y) as u128;
    let t = square_shift(i, j) as u128;
    if !(i == x && j == y) {
        lemma_shift_inj(x, y, i, j);
    }
    bv_set_excluded(b.raw(), s, t);
}

/// What clearing the excluded markers does: every cell value keeps its
/// contents and no square is excluded afterwards.
pub broadcast proof fn lemma_reset_excluded(b: Board, i: int, j: int)
    requires
        playable(i, j),
    ensures
        (#[trigger] b.spec_reset_excluded().spec_cell(i, j)) == b.spec_cell(i, j),
        !b.spec_reset_excluded().spec_excluded(i, j),
{
    lemma_shift_bounds(i, j);
    bv_reset_excluded(b.raw(), square_shift(i, j) as u128);
}

pub broadcast group group_board_cells {
    lemma_cell_bound,
    lemma_set_cell,
    lemma_set_excluded,
    lemma_reset_excluded,
}

/// Proves that 4-bit group `n` stores the playable square (nib_x(n), nib_y(n)).
pub(crate) proof fn lemma_nib_coords(n: int)
    requires
        0 <= n < 32,
    ensures
        playable(nib_x(n), nib_y(n)),
        square_shift(nib_x(n), nib_y(n)) == 4 * n,
{
    assert(n == 4 * (n / 4) + n % 4);
    assert(nib_y(n) / 2 == n % 4);
}

/// One of the five values a cell write accepts.
pub open spec fn legal_cell_value(v: u8) -> bool {
    v == 0 || v == 1 || v == 3 || v == 5 || v == 7
}

/// The cell value that `Board::new(rows)` lays out at row x: black pawns on
/// the first `rows` rows, white pawns on the last `rows`, nothing between.
pub open spec fn spec_new_cell(x: int, rows: int) -> u8 {
    if x < rows {
        3
    } else if x >= 8 - rows {
        1
    } else {
        0
    }
}

/// The cell value a mockup label stands for: "WP", "WQ", "BP" and "BQ"
/// name the four pieces, anything else is an empty square.
pub open spec fn spec_label_code(s: Seq<char>) -> u8 {
    if s.len() < 2 {
        0
    } else if s[0] == 'W' && s[1] == 'P' {
        1
    } else if s[0] == 'W' && s[1] == 'Q' {
        5
    } else if s[0] == 'B' && s[1] == 'P' {
        3
    } else if s[0] == 'B' && s[1] == 'Q' {
        7
    } else {
        0
    }
}

/// True when the playable square (x, y) holds a piece of the given color.
pub open spec fn has_color(b: Board, x: int, y: int, color: CheckersColor) -> bool {
    playable(x, y) && match spec_decode(b.spec_cell(x, y)) {
        Some(p) => p.spec_color() == color,
        None => false,
    }
}

/// Number of squares holding a piece of the given color, among the squares
/// at row-major positions `pos..64` (position 8*x + y).
pub open spec fn count_color_from(b: Board, color: CheckersColor, pos: int) -> nat
    decreases 64 - pos,
{
    if pos < 0 || pos >= 64 {
        0
    } else {
        (if has_color(b, pos / 8, pos % 8, color) {
            1nat
        } else {
            0nat
        }) + count_color_from(b, color, pos + 1)
    }
}

/// Number of pieces of the given color on the board.
pub open spec fn spec_pieces_count(b: Board, color: CheckersColor) -> nat {
    count_color_from(b, color, 0)
}

impl Board {
    /// What `get_at(x, y)` returns.
    pub open spec fn spec_get(self, x: int, y: int) -> Result<Option<Piece>, CheckersError> {
        if !(0 <= x < 8 && 0 <= y < 8) {
            Err(CheckersError::IndexOutOfBounds)
        } else if (x + y) % 2 == 0 {
            Err(CheckersError::RuleError)
        } else {
            Ok(self.spec_piece(x, y))
        }
    }

    /// What `set_at(x, y, v)` returns.
    pub open spec fn spec_set_result(x: int, y: int, v: u8) -> Result<(), CheckersError> {
        if !(0 <= x < 8 && 0 <= y < 8) {
            Err(CheckersError::IndexOutOfBounds)
        } else if (x + y) % 2 == 0 {
            Err(CheckersError::RuleError)
        } else if !legal_cell_value(v) {
            Err(CheckersError::PawnBinaryValueError)
        } else {
            Ok(())
        }
    }

    /// What `is_field_excluded(x, y)` returns.
    pub open spec fn spec_excluded_result(self, x: int, y: int) -> Result<bool, CheckersError> {
        if !(0 <= x < 8 && 0 <= y < 8) {
            Err(CheckersError::IndexOutOfBounds)
        } else if (x + y) % 2 == 0 {
            Err(CheckersError::RuleError)
        } else {
            Ok(self.spec_excluded(x, y))
        }
    }

    /// The 3-bit cell value of a playable square.
    pub(crate) fn cell_at(&self, x: usize, y: usize) -> (r: u8)
        requires
            playable(x as int, y as int),
        ensures
            r == self.spec_cell(x as int, y as int),
    {
        proof {
            lemma_shift_bounds(x as int, y as int);
        }
        let shift: u128 = (x as u128) * 16 + ((y / 2) as u128) * 4;
        let raw = self.board;
        let v = (raw >> shift) & 7;
        proof {
            assert(v < 8) by (bit_vector)
                requires
                    v == (raw >> shift) & 7,
            ;
        }
        v as u8
    }

    /// Whether a playable square carries the excluded marker.
    pub(crate) fn excluded_at(&self, x: usize, y: usize) -> (r: bool)
        requires
            playable(x as int, y as int),
        ensures
            r == self.spec_excluded(x as int, y as int),
    {
        proof {
            lemma_shift_bounds(x as int, y as int);
        }
        let shift: u128 = (x as u128) * 16 + ((y / 2) as u128) * 4;
        (self.board >> shift) & 8 == 8
    }

    /// The piece on a playable square, if any.
    pub(crate) fn piece_at(&self, x: usize, y: usize) -> (r: Option<Piece>)
        requires
            playable(x as int, y as int),
        ensures
            r == self.spec_piece(x as int, y as int),
    {
        let v = self.cell_at(x, y);
        self.decode_piece(v)
    }

    fn decode_piece(&self, value: u8) -> (r: Option<Piece>)
        ensures
            r == spec_decode(value),
    {
        match value {
            0b001 => Some(Piece::Pawn(CheckersColor::White)),
            0b011 => Some(Piece::Pawn(CheckersColor::Black)),
            0b101 => Some(Piece::Queen(CheckersColor::White)),
            0b111 => Some(Piece::Queen(CheckersColor::Black)),
            _ => None,
        }
    }

    fn set_cell_at(&mut self, x: usize, y: usize, v: u8)
        requires
            playable(x as int, y as int),
            v < 8,
        ensures
            *final(self) == old(self).spec_set_cell(x as int, y as int, v),
    {
        proof {
            lemma_shift_bounds(x as int, y as int);
        }
        let shift: u128 = (x as u128) * 16 + ((y / 2) as u128) * 4;
        self.board = (self.board & !(7u128 << shift)) | ((v as u128) << shift);
    }

    /// The piece on the square (x, y): an error for coordinates off the
    /// board or on a light square, otherwise the decoded occupant.
    pub fn get_at(&self, x: usize, y: usize) -> (r: Result<Option<Piece>, CheckersError>)
        ensures
            r == self.spec_get(x as int, y as int),
    {
        if x > 7 || y > 7 {
            return Err(CheckersError::IndexOutOfBounds);
        }
        if (x + y) % 2 == 0 {
            return Err(CheckersError::RuleError);
        }
        Ok(self.piece_at(x, y))
    }

    /// Writes one of the five cell codes to the square (x, y). The same
    /// coordinate checks as `get_at`, plus the value check; on success only
    /// that square's cell value changes — its excluded bit and every other
    /// square keep their contents.
    pub fn set_at(&mut self, x: usize, y: usize, value: u8) -> (r: Result<(), CheckersError>)
        ensures
            r == Self::spec_set_result(x as int, y as int, value),
            *final(self) == if r is Ok {
                old(self).spec_set_cell(x as int, y as int, value)
            } else {
                *old(self)
            },
    {
        if x > 7 || y > 7 {
            return Err(CheckersError::IndexOutOfBounds);
        }
        if (x + y) % 2 == 0 {
            return Err(CheckersError::RuleError);
        }
        match value {
            0b0000 | 0b0001 | 0b0101 | 0b0011 | 0b0111 => {},
            _ => {
                return Err(CheckersError::PawnBinaryValueError);
            },
        }
        self.set_cell_at(x, y, value);
        Ok(())
    }

    /// Whether the square (x, y) is empty, with the same coordinate checks
    /// as `get_at`.
    pub fn is_empty_at(&self, x: usize, y: usize) -> (r: Result<bool, CheckersError>)
        ensures
            r == match self.spec_get(x as int, y as int) {
                Ok(p) => Ok::<bool, CheckersError>(p is None),
                Err(e) => Err::<bool, CheckersError>(e),
            },
    {
        match self.get_at(x, y) {
            Ok(None) => Ok(true),
            Err(err) => Err(err),
            _ => Ok(false),
        }
    }

    /// Whether the square (x, y) carries the excluded marker, with the same
    /// coordinate checks as `get_at`.
    pub fn is_field_excluded(&self, x: usize, y: usize) -> (r: Result<bool, CheckersError>)
        ensures
            r == self.spec_excluded_result(x as int, y as int),
    {
        if x > 7 || y > 7 {
            return Err(CheckersError::IndexOutOfBounds);
        }
        if (x + y) % 2 == 0 {
            return Err(CheckersError::RuleError);
        }
        Ok(self.excluded_at(x, y))
    }

    /// Sets the excluded marker of the square (x, y), with the same
    /// coordinate checks as `get_at`; no cell value changes.
    pub fn set_field_excluded(&mut self, x: usize, y: usize) -> (r: Result<(), CheckersError>)
        ensures
            r == match old(self).spec_excluded_result(x as int, y as int) {
                Ok(_) => Ok::<(), CheckersError>(()),
                Err(e) => Err::<(), CheckersError>(e),
            },
            *final(self) == if r is Ok {
                old(self).spec_set_excluded(x as int, y as int)
            } else {
                *old(self)
            },
    {
        if x > 7 || y > 7 {
            return Err(CheckersError::IndexOutOfBounds);
        }
        if (x + y) % 2 == 0 {
            return Err(CheckersError::RuleError);
        }
        proof {
            lemma_shift_bounds(x as int, y as int);
        }
        let shift: u128 = (x as u128) * 16 + ((y / 2) as u128) * 4;
        self.board = self.board | (8u128 << shift);
        Ok(())
    }

    /// Clears the excluded marker of every square; no cell value changes.
    pub fn reset_excluded_fields(&mut self)
        ensures
            *final(self) == old(self).spec_reset_excluded(),
    {
        self.board = self.board & 0x7777_7777_7777_7777_7777_7777_7777_7777u128;
    }

    /// The raw packed representation.
    pub fn get_board(&self) -> (r: u128)
        ensures
            r == self.raw(),
    {
        self.board
    }

    /// The side length of the board.
    pub fn size(&self) -> (r: usize)
        ensures
            r == 8,
    {
        8
    }

    /// A tiny fixed position used for experiments.
    pub fn test() -> (r: Self)
        ensures
            r.raw() == 0b00110001u128,
    {
        Board { board: 0b00110001 }
    }

    /// A board with every square empty and no excluded markers.
    pub fn empty() -> (r: Board)
        ensures
            forall|x: int, y: int|
                playable(x, y) ==> #[trigger] r.spec_cell(x, y) == 0 && !r.spec_excluded(x, y),
    {
        let b = Board { board: 0 };
        proof {
            assert forall|x: int, y: int| playable(x, y) implies #[trigger] b.spec_cell(x, y) == 0
                && !b.spec_excluded(x, y) by {
                lemma_shift_bounds(x, y);
                let t = square_shift(x, y) as u128;
                assert((0u128 >> t) & 7 == 0 && (0u128 >> t) & 8 == 0) by (bit_vector);
            }
        }
        b
    }

    /// A fresh game position: `pawn_rows` full ranks of black pawns from
    /// row 0 and as many white pawns from row 7, empty between, no excluded
    /// markers; a construction error for 0 rows or more than 3.
    pub fn new(pawn_rows: usize) -> (r: Result<Board, CheckersError>)
        ensures
            (pawn_rows == 0 || pawn_rows > 3) ==> r == Err::<Board, CheckersError>(
                CheckersError::ConstructionError,
            ),
            (1 <= pawn_rows <= 3) ==> r is Ok,
            r is Ok ==> forall|x: int, y: int|
                playable(x, y) ==> #[trigger] r.unwrap().spec_cell(x, y) == spec_new_cell(
                    x,
                    pawn_rows as int,
                ) && !r.unwrap().spec_excluded(x, y),
    {
        if pawn_rows == 0 || pawn_rows > 3 {
            return Err(CheckersError::ConstructionError);
        }
        let mut b: u128 = 0;
        proof {
            assert forall|x: int, y: int| playable(x, y) implies ((0u128 >> (square_shift(x, y)
                as u128)) & 7 == 0 && (0u128 >> (square_shift(x, y) as u128)) & 8 == 0) by {
                lemma_shift_bounds(x, y);
                let t = square_shift(x, y) as u128;
                assert((0u128 >> t) & 7 == 0 && (0u128 >> t) & 8 == 0) by (bit_vector);
            }
        }
        let mut n: usize = 0;
        while n < 32
            invariant
                n <= 32,
                1 <= pawn_rows <= 3,
                forall|x: int, y: int|
                    playable(x, y) && square_shift(x, y) < 4 * n ==> ((b >> (#[trigger] square_shift(
                        x,
                        y,
                    ) as u128)) & 7 == spec_new_cell(x, pawn_rows as int) && (b >> (square_shift(
                        x,
                        y,
                    ) as u128)) & 8 == 0),
                forall|x: int, y: int|
                    playable(x, y) && square_shift(x, y) >= 4 * n ==> ((b >> (
                    #[trigger] square_shift(x, y) as u128)) & 7 == 0 && (b >> (square_shift(x, y)
                        as u128)) & 8 == 0),
            decreases 32 - n,
        {
            let x = n / 4;
            let code: u8 = if x < pawn_rows {
                3
            } else if x >= 8 - pawn_rows {
                1
            } else {
                0
            };
            let s: u128 = 4 * (n as u128);
            let b2 = b | ((code as u128) << s);
            proof {
                lemma_nib_coords(n as int);
                let nx = nib_x(n as int);
                let ny = nib_y(n as int);
                assert(square_shift(nx, ny) == 4 * n);
                assert((b >> s) & 7 == 0 && (b >> s) & 8 == 0);
                assert(code == spec_new_cell(nx, pawn_rows as int));
                assert forall|x2: int, y2: int| playable(x2, y2) implies {
                    let t = square_shift(x2, y2) as u128;
                    &&& (t != s ==> ((b2 >> t) & 7 == (b >> t) & 7 && (b2 >> t) & 8 == (b >> t)
                        & 8))
                    &&& (t == s ==> ((b2 >> t) & 7 == code && (b2 >> t) & 8 == 0))
                } by {
                    lemma_shift_bounds(x2, y2);
                    let t = square_shift(x2, y2) as u128;
                    let v = code as u128;
                    assert(v < 8);
                    assert((t != s ==> ((b | (v << s)) >> t) & 7 == (b >> t) & 7 && ((b | (v << s))
                        >> t) & 8 == (b >> t) & 8) && (t == s && (b >> s) & 7 == 0 && (b >> s) & 8
                        == 0 ==> (((b | (v << s)) >> t) & 7 == v && ((b | (v << s)) >> t) & 8 == 0))
                        && ((v & 7) as u8 == v as u8)) by (bit_vector)
                        requires
                            s <= 124,
                            t <= 124,
                            s % 4 == 0,
                            t % 4 == 0,
                            v < 8,
                    ;
                }
                assert forall|x2: int, y2: int|
                    playable(x2, y2) && square_shift(x2, y2) == 4 * n implies spec_new_cell(
                    x2,
                    pawn_rows as int,
                ) == code by {
                    assert(16 * x2 <= 16 * x2 + 4 * (y2 / 2) < 16 * x2 + 16);
                    assert(x2 == n as int / 4);
                }
            }
            b = b2;
            n = n + 1;
        }
        let ret = Board { board: b };
        proof {
            assert forall|x: int, y: int| playable(x, y) implies #[trigger] ret.spec_cell(x, y)
                == spec_new_cell(x, pawn_rows as int) && !ret.spec_excluded(x, y) by {
                lemma_shift_bounds(x, y);
                assert(square_shift(x, y) < 4 * 32);
                let t = square_shift(x, y) as u128;
                let v = (b >> t) & 7;
                assert(v < 8 ==> v as u8 == v) by (bit_vector);
            }
        }
        Ok(ret)
    }

    /// Lays out a position from a grid of labels, row by row: "WP", "WQ",
    /// "BP" and "BQ" name the four pieces, anything else is an empty
    /// square; labels on light squares are ignored.
    pub fn from_mockup(mockup: [[&str; 8]; 8]) -> (r: Board)
        ensures
            forall|x: int, y: int|
                playable(x, y) ==> #[trigger] r.spec_cell(x, y) == spec_label_code(
                    mockup@[x]@[y]@,
                ) && !r.spec_excluded(x, y),
    {
        let mut b = Board::empty();
        proof {
            assert forall|i: int, j: int| playable(i, j) implies !#[trigger] b.spec_excluded(
                i,
                j,
            ) by {
                let c = b.spec_cell(i, j);
            }
        }
        let mut pos: usize = 0;
        while pos < 64
            invariant
                pos <= 64,
                forall|i: int, j: int|
                    playable(i, j) && 8 * i + j < pos ==> #[trigger] b.spec_cell(i, j)
                        == spec_label_code(mockup@[i]@[j]@),
                forall|i: int, j: int|
                    playable(i, j) && 8 * i + j >= pos ==> #[trigger] b.spec_cell(i, j) == 0,
                forall|i: int, j: int| playable(i, j) ==> !#[trigger] b.spec_excluded(i, j),
            decreases 64 - pos,
        {
            let x = pos / 8;
            let y = pos % 8;
            let ghost prev = b;
            if (x + y) % 2 == 1 {
                let code = Self::label_code(mockup[x][y]);
                b.set_cell_at(x, y, code);
                proof {
                    assert forall|i: int, j: int| playable(i, j) implies {
                        &&& #[trigger] b.spec_cell(i, j) == (if i == x && j == y {
                            spec_label_code(mockup@[x as int]@[y as int]@)
                        } else {
                            prev.spec_cell(i, j)
                        })
                        &&& b.spec_excluded(i, j) == prev.spec_excluded(i, j)
                    } by {
                        lemma_set_cell(prev, x as int, y as int, code, i, j);
                    }
                }
            }
            proof {
                assert forall|i: int, j: int| playable(i, j) implies !#[trigger] b.spec_excluded(
                    i,
                    j,
                ) by {
                    let c = b.spec_cell(i, j);
                    let e = prev.spec_excluded(i, j);
                }
            }
            pos = pos + 1;
        }
        b
    }

    fn label_code(s: &str) -> (r: u8)
        ensures
            r == spec_label_code(s@),
            r < 8,
    {
        if s.unicode_len() < 2 {
            return 0;
        }
        let c0 = s.get_char(0);
        let c1 = s.get_char(1);
        if c0 == 'W' && c1 == 'P' {
            1
        } else if c0 == 'W' && c1 == 'Q' {
            5
        } else if c0 == 'B' && c1 == 'P' {
            3
        } else if c0 == 'B' && c1 == 'Q' {
            7
        } else {
            0
        }
    }

    /// Number of pieces of the given color on the board.
    pub fn pieces_count(&self, color: CheckersColor) -> (r: usize)
        ensures
            r == spec_pieces_count(*self, color),
    {
        let mut counter: usize = 0;
        let mut pos: usize = 0;
        while pos < 64
            invariant
                pos <= 64,
                counter <= pos,
                counter + count_color_from(*self, color, pos as int) == spec_pieces_count(
                    *self,
                    color,
                ),
            decreases 64 - pos,
        {
            let x = pos / 8;
            let y = pos % 8;
            if (x + y) % 2 == 1 {
                match self.piece_at(x, y) {
                    Some(p) => {
                        if p.color() == color {
                            counter = counter + 1;
                        }
                    },
                    None => {},
                }
            }
            pos = pos + 1;
        }
        counter
    }
}

impl Default for Board {
    /// A board with every square empty and no excluded markers.
    fn default() -> (r: Self)
        ensures
            forall|x: int, y: int|
                playable(x, y) ==> #[trigger] r.spec_cell(x, y) == 0 && !r.spec_excluded(x, y),
    {
        Board::empty()
    }
}

/// One square's decoded contents, as handed out during enumeration.
pub struct Cell {
    pub piece: Option<Piece>,
}

impl Cell {
    pub fn new(piece: Option<Piece>) -> (r: Cell)
        ensures
            r.piece == piece,
    {
        Cell { piece }
    }

    /// Whether the cell holds no piece.
    pub fn is_empty(&self) -> (r: bool)
        ensures
            r == (self.piece is None),
    {
        match self.piece {
            None => true,
            _ => false,
        }
    }
}

/// Walks the 64 squares of a board in row-major order, handing out each
/// square's decoded contents; light squares read as empty.
pub struct BoardIterator {
    x: usize,
    y: usize,
    board: Board,
}

impl BoardIterator {
    pub closed spec fn spec_x(self) -> int {
        self.x as int
    }

    pub closed spec fn spec_y(self) -> int {
        self.y as int
    }

    pub closed spec fn spec_board(self) -> Board {
        self.board
    }

    /// A fresh enumeration of the given board, starting at the top-left
    /// square; the board is copied, so the enumeration never observes later
    /// changes.
    pub fn new(board: &Board) -> (r: BoardIterator)
        ensures
            r.spec_x() == 0,
            r.spec_y() == 0,
            r.spec_board() == *board,
    {
        BoardIterator { x: 0, y: 0, board: *board }
    }

    /// The next square's contents in row-major order, or nothing once all
    /// 64 squares have been handed out.
    pub fn next(&mut self) -> (r: Option<Cell>)
        requires
            old(self).spec_y() <= 7,
        ensures
            final(self).spec_y() <= 7,
            old(self).spec_x() > 7 ==> r is None && *final(self) == *old(self),
            old(self).spec_x() <= 7 ==> {
                &&& r matches Some(c) && c.piece == (
                if playable(old(self).spec_x(), old(self).spec_y()) {
                    old(self).spec_board().spec_piece(old(self).spec_x(), old(self).spec_y())
                } else {
                    None
                })
                &&& final(self).spec_board() == old(self).spec_board()
                &&& if old(self).spec_y() == 7 {
                    final(self).spec_x() == old(self).spec_x() + 1 && final(self).spec_y() == 0
                } else {
                    final(self).spec_x() == old(self).spec_x() && final(self).spec_y() == old(
                        self,
                    ).spec_y() + 1
                }
            },
    {
        if self.x > 7 {
            return None;
        }
        let ret = match self.board.get_at(self.x, self.y) {
            Ok(Some(piece)) => Some(piece),
            _ => None,
        };
        let cell = Cell { piece: ret };
        self.y = self.y + 1;
        if self.y == 8 {
            self.x = self.x + 1;
            self.y = 0;
        }
        Some(cell)
    }
}

} // verus!
