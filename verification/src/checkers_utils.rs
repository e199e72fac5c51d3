//! Coordinate helpers, the move executor, and the error type.
use vstd::prelude::*;

use crate::board::{
    has_color, legal_cell_value, lemma_nib_coords, lemma_shift_inj, nib_x, nib_y, playable,
    spec_pieces_count, square_shift, Board,
};
use crate::moves::{Jump, SimpleMove};
use crate::pieces::{CheckersColor, Piece};

verus! {

broadcast use crate::board::group_board_cells;

/// Every failure a board or move operation can report.
#[derive(PartialEq, Eq, Structural, Clone, Copy, Debug)]
pub enum CheckersError {
    /// A coordinate lies outside 0..=7.
    IndexOutOfBounds,
    /// A coordinate addresses a structurally non-playable (light) square.
    RuleError,
    /// A cell write was attempted with a value that is not one of the five codes.
    PawnBinaryValueError,
    /// A board was requested with a pawn-row count outside 1..=3.
    ConstructionError,
}

/// True when both coordinates lie on the 8x8 board.
pub fn is_in_bounds(x: i32, y: i32) -> (r: bool)
    ensures
        r == (0 <= x < 8 && 0 <= y < 8),
{
    x >= 0 && x < 8 && y >= 0 && y < 8
}

/// True when both coordinates lie on the 8x8 board.
pub open spec fn in_bounds(x: int, y: int) -> bool {
    0 <= x < 8 && 0 <= y < 8
}

/// The human-readable label of the square (x, y): its file letter (A at
/// column 0) followed by its rank digit (8 at row 0 down to 1 at row 7).
pub fn alias_from_coordinates(x: usize, y: usize) -> (r: Result<String, CheckersError>)
    ensures
        x < 8 && y < 8 ==> (r matches Ok(a) && a@ == seq![
            "ABCDEFGH"@[y as int],
            "87654321"@[x as int],
        ]),
        !(x < 8 && y < 8) ==> r == Err::<String, CheckersError>(CheckersError::IndexOutOfBounds),
{
    if x > 7 || y > 7 {
        return Err(CheckersError::IndexOutOfBounds);
    }
    let letters = "ABCDEFGH";
    let digits = "87654321";
    proof {
        reveal_strlit("ABCDEFGH");
        reveal_strlit("87654321");
    }
    let file = letters.substring_ascii(y, y + 1);
    let rank = digits.substring_ascii(x, x + 1);
    let s = String::from_str(file).concat(rank);
    proof {
        assert(s@ =~= seq!["ABCDEFGH"@[y as int], "87654321"@[x as int]]);
    }
    Ok(s)
}

/// True when the playable square (x, y) holds a piece.
pub open spec fn spec_nonempty(b: Board, x: int, y: int) -> bool {
    b.spec_piece(x, y) is Some
}

/// True when the playable square (x, y) holds a piece of a color other
/// than the given one.
pub open spec fn spec_enemy_at(b: Board, x: int, y: int, color: CheckersColor) -> bool {
    match b.spec_piece(x, y) {
        Some(p) => p.spec_color() != color,
        None => false,
    }
}

/// A pawn on (x, y) may jump in direction (dx, dy): the adjacent square
/// holds a non-excluded enemy piece and the landing square two steps away
/// is on the board and empty.
pub open spec fn spec_pawn_jump_ok(
    b: Board,
    x: int,
    y: int,
    dx: int,
    dy: int,
    color: CheckersColor,
) -> bool {
    &&& in_bounds(x + dx, y + dy)
    &&& in_bounds(x + 2 * dx, y + 2 * dy)
    &&& !b.spec_excluded(x + dx, y + dy)
    &&& spec_nonempty(b, x + dx, y + dy)
    &&& spec_enemy_at(b, x + dx, y + dy, color)
    &&& b.spec_piece(x + 2 * dx, y + 2 * dy) is None
}

/// A pawn on (x, y) has at least one legal capturing jump.
pub open spec fn spec_can_pawn_capture(b: Board, x: int, y: int, color: CheckersColor) -> bool {
    ||| spec_pawn_jump_ok(b, x, y, 1, 1, color)
    ||| spec_pawn_jump_ok(b, x, y, 1, -1, color)
    ||| spec_pawn_jump_ok(b, x, y, -1, 1, color)
    ||| spec_pawn_jump_ok(b, x, y, -1, -1, color)
}

/// A piece on (x, y) may step one square in direction (dx, dy).
pub open spec fn spec_move_ok(b: Board, x: int, y: int, dx: int, dy: int) -> bool {
    in_bounds(x + dx, y + dy) && b.spec_piece(x + dx, y + dy) is None
}

/// A pawn on (x, y) has a legal non-capturing step: forward only, white
/// toward row 0, black toward row 7.
pub open spec fn spec_can_pawn_move(b: Board, x: int, y: int, color: CheckersColor) -> bool {
    match color {
        CheckersColor::White => spec_move_ok(b, x, y, -1, -1) || spec_move_ok(b, x, y, -1, 1),
        CheckersColor::Black => spec_move_ok(b, x, y, 1, -1) || spec_move_ok(b, x, y, 1, 1),
    }
}

/// A queen on (x, y) has a legal non-capturing step in some direction.
pub open spec fn spec_can_queen_move(b: Board, x: int, y: int) -> bool {
    ||| spec_move_ok(b, x, y, 1, 1)
    ||| spec_move_ok(b, x, y, 1, -1)
    ||| spec_move_ok(b, x, y, -1, 1)
    ||| spec_move_ok(b, x, y, -1, -1)
}

/// Steps from `v` to the board edge when walking in direction `d`.
pub open spec fn edge_steps(v: int, d: int) -> int {
    if d == 1 {
        7 - v
    } else {
        v
    }
}

/// Number of on-board squares on the diagonal from (x, y) in direction
/// (dx, dy), the starting square excluded.
pub open spec fn diag_len(x: int, y: int, dx: int, dy: int) -> int {
    if edge_steps(x, dx) <= edge_steps(y, dy) {
        edge_steps(x, dx)
    } else {
        edge_steps(y, dy)
    }
}

/// The i-th square (from 0) of that diagonal.
pub open spec fn diag_at(x: int, y: int, dx: int, dy: int, i: int) -> (int, int) {
    (x + (i + 1) * dx, y + (i + 1) * dy)
}

/// True when the square at position `n` (0..32) holds a non-excluded piece
/// of a color other than `c`: a piece the opponent could still capture.
pub open spec fn cap_sq(b: Board, c: CheckersColor, n: int) -> bool {
    !b.spec_excluded(nib_x(n), nib_y(n)) && spec_enemy_at(b, nib_x(n), nib_y(n), c)
}

/// Number of capturable squares among positions `n..32`.
pub open spec fn capt_from(b: Board, c: CheckersColor, n: int) -> nat
    decreases 32 - n,
{
    if n < 0 || n >= 32 {
        0
    } else {
        (if cap_sq(b, c, n) {
            1nat
        } else {
            0nat
        }) + capt_from(b, c, n + 1)
    }
}

/// Number of non-excluded enemy pieces still on the board: the measure
/// that shrinks with every jump of a capture chain.
pub open spec fn capturable_count(b: Board, c: CheckersColor) -> nat {
    capt_from(b, c, 0)
}

proof fn lemma_capt_diff(b: Board, b2: Board, c: CheckersColor, n: int, n0: int)
    requires
        0 <= n,
        0 <= n0 < 32,
        forall|k: int| 0 <= k < 32 && k != n0 ==> cap_sq(b2, c, k) == cap_sq(b, c, k),
        !cap_sq(b2, c, n0),
        cap_sq(b, c, n0),
    ensures
        n > n0 ==> capt_from(b2, c, n) == capt_from(b, c, n),
        n <= n0 ==> capt_from(b2, c, n) + 1 == capt_from(b, c, n),
    decreases 32 - n,
{
    if n < 32 {
        lemma_capt_diff(b, b2, c, n + 1, n0);
    }
}

/// Marking a capturable square excluded strictly shrinks the measure.
pub proof fn lemma_exclude_decreases(b: Board, c: CheckersColor, x: int, y: int)
    requires
        playable(x, y),
        !b.spec_excluded(x, y),
        spec_enemy_at(b, x, y, c),
    ensures
        capturable_count(b.spec_set_excluded(x, y), c) < capturable_count(b, c),
{
    let b2 = b.spec_set_excluded(x, y);
    let n0 = 4 * x + y / 2;
    assert(square_shift(x, y) == 4 * n0);
    lemma_nib_coords(n0);
    if !(nib_x(n0) == x && nib_y(n0) == y) {
        lemma_shift_inj(x, y, nib_x(n0), nib_y(n0));
        assert(false);
    }
    assert forall|k: int| 0 <= k < 32 && k != n0 implies cap_sq(b2, c, k) == cap_sq(b, c, k) by {
        lemma_nib_coords(k);
        if nib_x(k) == x && nib_y(k) == y {
            assert(square_shift(nib_x(k), nib_y(k)) == square_shift(x, y));
            assert(4 * k == 4 * n0);
            assert(false);
        }
    }
    assert(!cap_sq(b2, c, n0));
    assert(cap_sq(b, c, n0));
    lemma_capt_diff(b, b2, c, 0, n0);
}

/// The jump a pawn on (x, y) makes in direction (dx, dy).
pub open spec fn mk_pawn_jump(x: int, y: int, dx: int, dy: int) -> Jump {
    Jump {
        x_start: x as usize,
        y_start: y as usize,
        x_end: (x + 2 * dx) as usize,
        y_end: (y + 2 * dy) as usize,
        x_capture: (x + dx) as usize,
        y_capture: (y + dy) as usize,
    }
}

/// Every chain of `cs` with `j` prefixed to it, in order.
pub open spec fn prepend_jump(j: Jump, cs: Seq<Seq<Jump>>) -> Seq<Seq<Jump>> {
    cs.map_values(|chain: Seq<Jump>| seq![j] + chain)
}

/// The chains of a list of chains held as vectors.
pub open spec fn chains_view(s: Seq<Vec<Jump>>) -> Seq<Seq<Jump>> {
    s.map_values(|chain: Vec<Jump>| chain@)
}

/// All complete capture chains a pawn on (x, y) can run on this board:
/// depth-first, directions tried in the fixed order (1,1), (1,-1), (-1,1),
/// (-1,-1), each jump marking its captured square excluded on a copy of
/// the board. A pawn with no jump at all yields one empty chain.
pub open spec fn spec_pawn_chains(b: Board, x: int, y: int, c: CheckersColor) -> Seq<Seq<Jump>>
    decreases capturable_count(b, c),
        when playable(x, y)
{
    if !spec_can_pawn_capture(b, x, y, c) {
        seq![Seq::<Jump>::empty()]
    } else {
        (if spec_pawn_jump_ok(b, x, y, 1, 1, c) {
            proof {
                lemma_exclude_decreases(b, c, x + 1, y + 1);
            }
            prepend_jump(
                mk_pawn_jump(x, y, 1, 1),
                spec_pawn_chains(b.spec_set_excluded(x + 1, y + 1), x + 2, y + 2, c),
            )
        } else {
            Seq::<Seq<Jump>>::empty()
        }) + (if spec_pawn_jump_ok(b, x, y, 1, -1, c) {
            proof {
                lemma_exclude_decreases(b, c, x + 1, y - 1);
            }
            prepend_jump(
                mk_pawn_jump(x, y, 1, -1),
                spec_pawn_chains(b.spec_set_excluded(x + 1, y - 1), x + 2, y - 2, c),
            )
        } else {
            Seq::<Seq<Jump>>::empty()
        }) + (if spec_pawn_jump_ok(b, x, y, -1, 1, c) {
            proof {
                lemma_exclude_decreases(b, c, x - 1, y + 1);
            }
            prepend_jump(
                mk_pawn_jump(x, y, -1, 1),
                spec_pawn_chains(b.spec_set_excluded(x - 1, y + 1), x - 2, y + 2, c),
            )
        } else {
            Seq::<Seq<Jump>>::empty()
        }) + (if spec_pawn_jump_ok(b, x, y, -1, -1, c) {
            proof {
                lemma_exclude_decreases(b, c, x - 1, y - 1);
            }
            prepend_jump(
                mk_pawn_jump(x, y, -1, -1),
                spec_pawn_chains(b.spec_set_excluded(x - 1, y - 1), x - 2, y - 2, c),
            )
        } else {
            Seq::<Seq<Jump>>::empty()
        })
    }
}

/// The chains contributed by one direction of the pawn's depth-first
/// search: nothing if the jump is not legal, otherwise every chain of the
/// landing square with that jump prefixed.
pub open spec fn spec_pawn_branch(
    b: Board,
    x: int,
    y: int,
    dx: int,
    dy: int,
    c: CheckersColor,
) -> Seq<Seq<Jump>> {
    if spec_pawn_jump_ok(b, x, y, dx, dy, c) {
        prepend_jump(
            mk_pawn_jump(x, y, dx, dy),
            spec_pawn_chains(b.spec_set_excluded(x + dx, y + dy), x + 2 * dx, y + 2 * dy, c),
        )
    } else {
        Seq::<Seq<Jump>>::empty()
    }
}

/// The square at step `k` of the diagonal holds a non-excluded piece: an
/// obstacle (or a capture target) for a queen scanning outward.
pub open spec fn nxo(b: Board, x: int, y: int, dx: int, dy: int, k: int) -> bool {
    let (i, j) = diag_at(x, y, dx, dy, k);
    !b.spec_excluded(i, j) && spec_nonempty(b, i, j)
}

/// The square at step `k` of the diagonal is empty and not excluded: a
/// square a capturing queen may land on.
pub open spec fn landing_ok(b: Board, x: int, y: int, dx: int, dy: int, k: int) -> bool {
    let (i, j) = diag_at(x, y, dx, dy, k);
    !b.spec_excluded(i, j) && b.spec_piece(i, j) is None
}

/// First step at or after `k` of the diagonal holding a non-excluded
/// piece; the diagonal's length when there is none.
pub open spec fn fb_from(b: Board, x: int, y: int, dx: int, dy: int, k: int) -> int
    decreases diag_len(x, y, dx, dy) - k,
{
    if k < 0 || k >= diag_len(x, y, dx, dy) {
        diag_len(x, y, dx, dy)
    } else if nxo(b, x, y, dx, dy, k) {
        k
    } else {
        fb_from(b, x, y, dx, dy, k + 1)
    }
}

proof fn lemma_fb_props(b: Board, x: int, y: int, dx: int, dy: int, k: int)
    requires
        0 <= k <= diag_len(x, y, dx, dy),
    ensures
        k <= fb_from(b, x, y, dx, dy, k) <= diag_len(x, y, dx, dy),
        forall|t: int| k <= t < fb_from(b, x, y, dx, dy, k) ==> !nxo(b, x, y, dx, dy, t),
        fb_from(b, x, y, dx, dy, k) < diag_len(x, y, dx, dy) ==> nxo(
            b,
            x,
            y,
            dx,
            dy,
            fb_from(b, x, y, dx, dy, k),
        ),
    decreases diag_len(x, y, dx, dy) - k,
{
    if k < diag_len(x, y, dx, dy) && !nxo(b, x, y, dx, dy, k) {
        lemma_fb_props(b, x, y, dx, dy, k + 1);
    }
}

proof fn lemma_fb_char(b: Board, x: int, y: int, dx: int, dy: int, m: int, k: int)
    requires
        0 <= m <= k <= diag_len(x, y, dx, dy),
        forall|t: int| m <= t < k ==> !nxo(b, x, y, dx, dy, t),
        k == diag_len(x, y, dx, dy) || nxo(b, x, y, dx, dy, k),
    ensures
        fb_from(b, x, y, dx, dy, m) == k,
    decreases k - m,
{
    if m < k {
        lemma_fb_char(b, x, y, dx, dy, m + 1, k);
    }
}

/// The jump of a queen on (x, y) landing at step `i` of the diagonal,
/// over the enemy at step `e`.
pub open spec fn mk_queen_jump(x: int, y: int, dx: int, dy: int, i: int, e: int) -> Jump {
    Jump {
        x_start: x as usize,
        y_start: y as usize,
        x_end: diag_at(x, y, dx, dy, i).0 as usize,
        y_end: diag_at(x, y, dx, dy, i).1 as usize,
        x_capture: diag_at(x, y, dx, dy, e).0 as usize,
        y_capture: diag_at(x, y, dx, dy, e).1 as usize,
    }
}

/// The jumps over the enemy at step `e` landing on each empty, non-excluded
/// square at steps `lo..hi` of the diagonal, in order.
pub open spec fn landings_between(
    b: Board,
    x: int,
    y: int,
    dx: int,
    dy: int,
    e: int,
    lo: int,
    hi: int,
) -> Seq<Jump>
    decreases hi - lo,
{
    if lo >= hi {
        Seq::<Jump>::empty()
    } else {
        (if landing_ok(b, x, y, dx, dy, lo) {
            seq![mk_queen_jump(x, y, dx, dy, lo, e)]
        } else {
            Seq::<Jump>::empty()
        }) + landings_between(b, x, y, dx, dy, e, lo + 1, hi)
    }
}

/// What a queen's outward scan in one direction finds: excluded squares
/// are transparent; the first non-excluded piece, if it is an enemy, may
/// be jumped, landing on any empty non-excluded square before the next
/// non-excluded piece; a first piece of the queen's own color blocks the
/// ray.
pub open spec fn dir_landings(
    b: Board,
    x: int,
    y: int,
    dx: int,
    dy: int,
    c: CheckersColor,
) -> Seq<Jump> {
    let n = diag_len(x, y, dx, dy);
    let e = fb_from(b, x, y, dx, dy, 0);
    if e < n && spec_enemy_at(b, diag_at(x, y, dx, dy, e).0, diag_at(x, y, dx, dy, e).1, c) {
        landings_between(b, x, y, dx, dy, e, e + 1, fb_from(b, x, y, dx, dy, e + 1))
    } else {
        Seq::<Jump>::empty()
    }
}

/// All landing choices of a queen on (x, y), directions in the fixed
/// order (1,1), (1,-1), (-1,1), (-1,-1).
pub open spec fn spec_landing_spots(b: Board, x: int, y: int, c: CheckersColor) -> Seq<Jump> {
    dir_landings(b, x, y, 1, 1, c) + dir_landings(b, x, y, 1, -1, c) + dir_landings(
        b,
        x,
        y,
        -1,
        1,
        c,
    ) + dir_landings(b, x, y, -1, -1, c)
}

/// One step of the capture test a queen runs along a diagonal: stop at an
/// excluded square, walk over empty squares, and demand of the first piece
/// found that it is an enemy with an empty square right behind it.
pub open spec fn queen_jump_scan(
    b: Board,
    x: int,
    y: int,
    dx: int,
    dy: int,
    c: CheckersColor,
    k: int,
) -> bool
    decreases diag_len(x, y, dx, dy) - 1 - k,
{
    if k < 0 || k >= diag_len(x, y, dx, dy) - 1 {
        false
    } else {
        let (i, j) = diag_at(x, y, dx, dy, k);
        if b.spec_excluded(i, j) {
            false
        } else if b.spec_piece(i, j) is None {
            queen_jump_scan(b, x, y, dx, dy, c, k + 1)
        } else {
            b.spec_piece(diag_at(x, y, dx, dy, k + 1).0, diag_at(x, y, dx, dy, k + 1).1) is None
                && spec_enemy_at(b, i, j, c)
        }
    }
}

/// A queen on (x, y) may jump in direction (dx, dy).
pub open spec fn spec_queen_jump_ok(
    b: Board,
    x: int,
    y: int,
    dx: int,
    dy: int,
    c: CheckersColor,
) -> bool {
    diag_len(x, y, dx, dy) >= 2 && queen_jump_scan(b, x, y, dx, dy, c, 0)
}

/// A queen on (x, y) has at least one legal capturing jump.
pub open spec fn spec_can_queen_capture(b: Board, x: int, y: int, c: CheckersColor) -> bool {
    ||| spec_queen_jump_ok(b, x, y, 1, 1, c)
    ||| spec_queen_jump_ok(b, x, y, 1, -1, c)
    ||| spec_queen_jump_ok(b, x, y, -1, 1, c)
    ||| spec_queen_jump_ok(b, x, y, -1, -1, c)
}

/// The facts a queen-chain step needs of a landing choice: the captured
/// square holds a non-excluded enemy piece and both it and the landing
/// square are playable.
pub open spec fn spec_jump_live(b: Board, j: Jump, c: CheckersColor) -> bool {
    &&& playable(j.x_capture as int, j.y_capture as int)
    &&& playable(j.x_end as int, j.y_end as int)
    &&& !b.spec_excluded(j.x_capture as int, j.y_capture as int)
    &&& spec_enemy_at(b, j.x_capture as int, j.y_capture as int, c)
}

proof fn lemma_diag_playable(x: int, y: int, dx: int, dy: int, k: int)
    requires
        playable(x, y),
        dx == 1 || dx == -1,
        dy == 1 || dy == -1,
        0 <= k < diag_len(x, y, dx, dy),
    ensures
        playable(diag_at(x, y, dx, dy, k).0, diag_at(x, y, dx, dy, k).1),
        in_bounds(diag_at(x, y, dx, dy, k).0, diag_at(x, y, dx, dy, k).1),
        diag_at(x, y, dx, dy, k + 1).0 == diag_at(x, y, dx, dy, k).0 + dx,
        diag_at(x, y, dx, dy, k + 1).1 == diag_at(x, y, dx, dy, k).1 + dy,
{
    if dx == 1 {
        assert((k + 1) * 1 == k + 1);
        assert((k + 2) * 1 == k + 2);
    } else {
        assert((k + 1) * -1 == -(k + 1));
        assert((k + 2) * -1 == -(k + 2));
    }
    if dy == 1 {
        assert((k + 1) * 1 == k + 1);
    } else {
        assert((k + 1) * -1 == -(k + 1));
    }
}

/// All landing choices of a queen on a playable square are live: they
/// start at the queen, capture a playable non-excluded enemy square, and
/// land on a playable empty square.
#[verifier::rlimit(100)]
proof fn lemma_landings_between_props(
    b: Board,
    x: int,
    y: int,
    dx: int,
    dy: int,
    c: CheckersColor,
    e: int,
    lo: int,
    hi: int,
)
    requires
        playable(x, y),
        dx == 1 || dx == -1,
        dy == 1 || dy == -1,
        0 <= e < diag_len(x, y, dx, dy),
        e < lo,
        hi <= diag_len(x, y, dx, dy),
        nxo(b, x, y, dx, dy, e),
        spec_enemy_at(b, diag_at(x, y, dx, dy, e).0, diag_at(x, y, dx, dy, e).1, c),
    ensures
        forall|t: int|
            0 <= t < landings_between(b, x, y, dx, dy, e, lo, hi).len() ==> {
                let j = #[trigger] landings_between(b, x, y, dx, dy, e, lo, hi)[t];
                &&& j.x_start == x as usize
                &&& j.y_start == y as usize
                &&& spec_jump_live(b, j, c)
                &&& b.spec_piece(j.x_end as int, j.y_end as int) is None
            },
    decreases hi - lo,
{
    lemma_diag_playable(x, y, dx, dy, e);
    if lo < hi {
        lemma_landings_between_props(b, x, y, dx, dy, c, e, lo + 1, hi);
        if landing_ok(b, x, y, dx, dy, lo) {
            lemma_diag_playable(x, y, dx, dy, lo);
            let j = mk_queen_jump(x, y, dx, dy, lo, e);
            assert(spec_jump_live(b, j, c));
        }
    }
}

/// Every landing choice `spec_landing_spots` offers is live.
pub proof fn lemma_landing_spots_props(b: Board, x: int, y: int, c: CheckersColor)
    requires
        playable(x, y),
    ensures
        forall|t: int|
            0 <= t < spec_landing_spots(b, x, y, c).len() ==> {
                let j = #[trigger] spec_landing_spots(b, x, y, c)[t];
                &&& j.x_start == x as usize
                &&& j.y_start == y as usize
                &&& spec_jump_live(b, j, c)
                &&& b.spec_piece(j.x_end as int, j.y_end as int) is None
            },
{
    lemma_dir_landings_props(b, x, y, 1, 1, c);
    lemma_dir_landings_props(b, x, y, 1, -1, c);
    lemma_dir_landings_props(b, x, y, -1, 1, c);
    lemma_dir_landings_props(b, x, y, -1, -1, c);
}

proof fn lemma_dir_landings_props(b: Board, x: int, y: int, dx: int, dy: int, c: CheckersColor)
    requires
        playable(x, y),
        dx == 1 || dx == -1,
        dy == 1 || dy == -1,
    ensures
        forall|t: int|
            0 <= t < dir_landings(b, x, y, dx, dy, c).len() ==> {
                let j = #[trigger] dir_landings(b, x, y, dx, dy, c)[t];
                &&& j.x_start == x as usize
                &&& j.y_start == y as usize
                &&& spec_jump_live(b, j, c)
                &&& b.spec_piece(j.x_end as int, j.y_end as int) is None
            },
{
    let n = diag_len(x, y, dx, dy);
    lemma_fb_props(b, x, y, dx, dy, 0);
    let e = fb_from(b, x, y, dx, dy, 0);
    if e < n && spec_enemy_at(b, diag_at(x, y, dx, dy, e).0, diag_at(x, y, dx, dy, e).1, c) {
        lemma_fb_props(b, x, y, dx, dy, e + 1);
        lemma_landings_between_props(b, x, y, dx, dy, c, e, e + 1, fb_from(b, x, y, dx, dy, e + 1));
    }
}

/// All complete capture chains a queen on (x, y) can run on this board:
/// depth-first over the queen's landing choices, each jump marking its
/// captured square excluded on a copy of the board. A queen with no jump
/// at all yields one empty chain.
pub open spec fn spec_queen_chains(b: Board, x: int, y: int, c: CheckersColor) -> Seq<Seq<Jump>>
    decreases capturable_count(b, c), 1int, 0int,
        when playable(x, y)
{
    if !spec_can_queen_capture(b, x, y, c) {
        seq![Seq::<Jump>::empty()]
    } else {
        spec_queen_chains_list(b, spec_landing_spots(b, x, y, c), 0, c)
    }
}

/// The chains found by following each landing choice from `i` on, in
/// order; a choice whose captured square is no longer a live enemy is
/// passed over.
pub open spec fn spec_queen_chains_list(b: Board, list: Seq<Jump>, i: int, c: CheckersColor) -> Seq<
    Seq<Jump>,
>
    decreases capturable_count(b, c), 0int, list.len() - i,
        when 0 <= i
{
    if i >= list.len() {
        Seq::<Seq<Jump>>::empty()
    } else {
        let j = list[i];
        (if spec_jump_live(b, j, c) {
            proof {
                lemma_exclude_decreases(b, c, j.x_capture as int, j.y_capture as int);
            }
            prepend_jump(
                j,
                spec_queen_chains(
                    b.spec_set_excluded(j.x_capture as int, j.y_capture as int),
                    j.x_end as int,
                    j.y_end as int,
                    c,
                ),
            )
        } else {
            Seq::<Seq<Jump>>::empty()
        }) + spec_queen_chains_list(b, list, i + 1, c)
    }
}

/// The coordinates of the pieces of one color among the squares at
/// row-major positions `pos..64`.
pub open spec fn spec_pieces_from(b: Board, c: CheckersColor, pos: int) -> Seq<(usize, usize)>
    decreases 64 - pos,
{
    if pos < 0 || pos >= 64 {
        Seq::<(usize, usize)>::empty()
    } else {
        (if has_color(b, pos / 8, pos % 8, c) {
            seq![(((pos / 8) as usize), ((pos % 8) as usize))]
        } else {
            Seq::<(usize, usize)>::empty()
        }) + spec_pieces_from(b, c, pos + 1)
    }
}

/// The coordinates of the pieces of one color, in row-major order.
pub open spec fn spec_get_pieces(b: Board, c: CheckersColor) -> Seq<(usize, usize)> {
    spec_pieces_from(b, c, 0)
}

/// Every coordinate pair `spec_pieces_from` lists is a playable square
/// holding a piece of the asked-for color.
pub proof fn lemma_pieces_from_props(b: Board, c: CheckersColor, pos: int)
    ensures
        forall|t: int|
            0 <= t < spec_pieces_from(b, c, pos).len() ==> {
                let p = #[trigger] spec_pieces_from(b, c, pos)[t];
                playable(p.0 as int, p.1 as int) && has_color(b, p.0 as int, p.1 as int, c)
            },
    decreases 64 - pos,
{
    if 0 <= pos < 64 {
        lemma_pieces_from_props(b, c, pos + 1);
        let s = spec_pieces_from(b, c, pos);
        let rest = spec_pieces_from(b, c, pos + 1);
        assert forall|t: int| 0 <= t < s.len() implies {
            let p = #[trigger] s[t];
            playable(p.0 as int, p.1 as int) && has_color(b, p.0 as int, p.1 as int, c)
        } by {
            if has_color(b, pos / 8, pos % 8, c) {
                if t == 0 {
                    assert(s[t] == (((pos / 8) as usize), ((pos % 8) as usize)));
                } else {
                    assert(s[t] == rest[t - 1]);
                }
            } else {
                assert(s[t] == rest[t]);
            }
        }
    }
}

/// The members of `pieces` from index `i` on that are pawns of the given
/// color's side with at least one capturing jump, in order.
pub open spec fn filter_capturing_pawns(
    b: Board,
    pieces: Seq<(usize, usize)>,
    i: int,
    c: CheckersColor,
) -> Seq<(usize, usize)>
    decreases pieces.len() - i,
{
    if i < 0 || i >= pieces.len() {
        Seq::<(usize, usize)>::empty()
    } else {
        (if b.spec_piece(pieces[i].0 as int, pieces[i].1 as int) matches Some(Piece::Pawn(_))
            && spec_can_pawn_capture(b, pieces[i].0 as int, pieces[i].1 as int, c) {
            seq![pieces[i]]
        } else {
            Seq::<(usize, usize)>::empty()
        }) + filter_capturing_pawns(b, pieces, i + 1, c)
    }
}

/// As `filter_capturing_pawns`, for queens.
pub open spec fn filter_capturing_queens(
    b: Board,
    pieces: Seq<(usize, usize)>,
    i: int,
    c: CheckersColor,
) -> Seq<(usize, usize)>
    decreases pieces.len() - i,
{
    if i < 0 || i >= pieces.len() {
        Seq::<(usize, usize)>::empty()
    } else {
        (if b.spec_piece(pieces[i].0 as int, pieces[i].1 as int) matches Some(Piece::Queen(_))
            && spec_can_queen_capture(b, pieces[i].0 as int, pieces[i].1 as int, c) {
            seq![pieces[i]]
        } else {
            Seq::<(usize, usize)>::empty()
        }) + filter_capturing_queens(b, pieces, i + 1, c)
    }
}

/// The members of `pieces` from index `i` on that are pawns with at least
/// one legal step, in order.
pub open spec fn filter_moving_pawns(
    b: Board,
    pieces: Seq<(usize, usize)>,
    i: int,
    c: CheckersColor,
) -> Seq<(usize, usize)>
    decreases pieces.len() - i,
{
    if i < 0 || i >= pieces.len() {
        Seq::<(usize, usize)>::empty()
    } else {
        (if b.spec_piece(pieces[i].0 as int, pieces[i].1 as int) matches Some(Piece::Pawn(_))
            && spec_can_pawn_move(b, pieces[i].0 as int, pieces[i].1 as int, c) {
            seq![pieces[i]]
        } else {
            Seq::<(usize, usize)>::empty()
        }) + filter_moving_pawns(b, pieces, i + 1, c)
    }
}

/// As `filter_moving_pawns`, for queens.
pub open spec fn filter_moving_queens(
    b: Board,
    pieces: Seq<(usize, usize)>,
    i: int,
    c: CheckersColor,
) -> Seq<(usize, usize)>
    decreases pieces.len() - i,
{
    if i < 0 || i >= pieces.len() {
        Seq::<(usize, usize)>::empty()
    } else {
        (if b.spec_piece(pieces[i].0 as int, pieces[i].1 as int) matches Some(Piece::Queen(_))
            && spec_can_queen_move(b, pieces[i].0 as int, pieces[i].1 as int) {
            seq![pieces[i]]
        } else {
            Seq::<(usize, usize)>::empty()
        }) + filter_moving_queens(b, pieces, i + 1, c)
    }
}

/// The longest chain length among the chains at indices `i..` of `s`.
pub open spec fn max_len_from(s: Seq<Seq<Jump>>, i: int) -> nat
    decreases s.len() - i,
{
    if i < 0 || i >= s.len() {
        0
    } else {
        let m = max_len_from(s, i + 1);
        if s[i].len() >= m {
            s[i].len()
        } else {
            m
        }
    }
}

/// The chains at indices `i..` of `s` whose length is exactly `m`, in
/// order.
pub open spec fn keep_len(s: Seq<Seq<Jump>>, m: nat, i: int) -> Seq<Seq<Jump>>
    decreases s.len() - i,
{
    if i < 0 || i >= s.len() {
        Seq::<Seq<Jump>>::empty()
    } else {
        (if s[i].len() == m {
            seq![s[i]]
        } else {
            Seq::<Seq<Jump>>::empty()
        }) + keep_len(s, m, i + 1)
    }
}

/// The chains of all the given pawns pooled in order.
pub open spec fn pawn_chains_concat(
    b: Board,
    pieces: Seq<(usize, usize)>,
    i: int,
    c: CheckersColor,
) -> Seq<Seq<Jump>>
    decreases pieces.len() - i,
{
    if i < 0 || i >= pieces.len() {
        Seq::<Seq<Jump>>::empty()
    } else {
        spec_pawn_chains(b, pieces[i].0 as int, pieces[i].1 as int, c) + pawn_chains_concat(
            b,
            pieces,
            i + 1,
            c,
        )
    }
}

/// The chains of all the given queens pooled in order.
pub open spec fn queen_chains_concat(
    b: Board,
    pieces: Seq<(usize, usize)>,
    i: int,
    c: CheckersColor,
) -> Seq<Seq<Jump>>
    decreases pieces.len() - i,
{
    if i < 0 || i >= pieces.len() {
        Seq::<Seq<Jump>>::empty()
    } else {
        spec_queen_chains(b, pieces[i].0 as int, pieces[i].1 as int, c) + queen_chains_concat(
            b,
            pieces,
            i + 1,
            c,
        )
    }
}

/// What `get_possible_pawn_captures` returns: the pooled chains of the
/// given pawns, with only those of the greatest length kept; nothing when
/// there is no chain at all.
pub open spec fn spec_pawn_captures(b: Board, pieces: Seq<(usize, usize)>, c: CheckersColor) -> Seq<
    Seq<Jump>,
> {
    let all = pawn_chains_concat(b, pieces, 0, c);
    if all.len() == 0 {
        all
    } else {
        keep_len(all, max_len_from(all, 0), 0)
    }
}

/// What `get_possible_queen_captures` returns, as `spec_pawn_captures`.
pub open spec fn spec_queen_captures(
    b: Board,
    pieces: Seq<(usize, usize)>,
    c: CheckersColor,
) -> Seq<Seq<Jump>> {
    let all = queen_chains_concat(b, pieces, 0, c);
    if all.len() == 0 {
        all
    } else {
        keep_len(all, max_len_from(all, 0), 0)
    }
}

/// What `get_all_captures` returns: the capturing pawns' filtered chains
/// followed by the capturing queens' filtered chains.
pub open spec fn spec_all_captures(b: Board, c: CheckersColor) -> Seq<Seq<Jump>> {
    spec_pawn_captures(b, filter_capturing_pawns(b, spec_get_pieces(b, c), 0, c), c)
        + spec_queen_captures(b, filter_capturing_queens(b, spec_get_pieces(b, c), 0, c), c)
}

/// The relocation of a piece from (x, y) to (ex, ey).
pub open spec fn mk_move(x: int, y: int, ex: int, ey: int) -> SimpleMove {
    SimpleMove { x_start: x as usize, y_start: y as usize, x_end: ex as usize, y_end: ey as usize }
}

/// The legal steps of a pawn on (x, y): one square diagonally forward
/// into an empty square, left side first.
pub open spec fn spec_pawn_move_list(b: Board, x: int, y: int, c: CheckersColor) -> Seq<
    SimpleMove,
> {
    match c {
        CheckersColor::White => (if spec_move_ok(b, x, y, -1, -1) {
            seq![mk_move(x, y, x - 1, y - 1)]
        } else {
            Seq::<SimpleMove>::empty()
        }) + (if spec_move_ok(b, x, y, -1, 1) {
            seq![mk_move(x, y, x - 1, y + 1)]
        } else {
            Seq::<SimpleMove>::empty()
        }),
        CheckersColor::Black => (if spec_move_ok(b, x, y, 1, 1) {
            seq![mk_move(x, y, x + 1, y + 1)]
        } else {
            Seq::<SimpleMove>::empty()
        }) + (if spec_move_ok(b, x, y, 1, -1) {
            seq![mk_move(x, y, x + 1, y - 1)]
        } else {
            Seq::<SimpleMove>::empty()
        }),
    }
}

/// The steps of all the given pawns pooled in order.
pub open spec fn pawn_moves_concat(
    b: Board,
    pieces: Seq<(usize, usize)>,
    i: int,
    c: CheckersColor,
) -> Seq<SimpleMove>
    decreases pieces.len() - i,
{
    if i < 0 || i >= pieces.len() {
        Seq::<SimpleMove>::empty()
    } else {
        spec_pawn_move_list(b, pieces[i].0 as int, pieces[i].1 as int, c) + pawn_moves_concat(
            b,
            pieces,
            i + 1,
            c,
        )
    }
}

/// First step at or after `k` of the diagonal holding any piece; the
/// diagonal's length when there is none.
pub open spec fn first_occupied_from(b: Board, x: int, y: int, dx: int, dy: int, k: int) -> int
    decreases diag_len(x, y, dx, dy) - k,
{
    if k < 0 || k >= diag_len(x, y, dx, dy) {
        diag_len(x, y, dx, dy)
    } else if spec_nonempty(b, diag_at(x, y, dx, dy, k).0, diag_at(x, y, dx, dy, k).1) {
        k
    } else {
        first_occupied_from(b, x, y, dx, dy, k + 1)
    }
}

proof fn lemma_first_occ_char(b: Board, x: int, y: int, dx: int, dy: int, k: int)
    requires
        0 <= k <= diag_len(x, y, dx, dy),
        forall|t: int|
            0 <= t < k ==> !spec_nonempty(b, diag_at(x, y, dx, dy, t).0, diag_at(x, y, dx, dy, t).1),
        k == diag_len(x, y, dx, dy) || spec_nonempty(
            b,
            diag_at(x, y, dx, dy, k).0,
            diag_at(x, y, dx, dy, k).1,
        ),
    ensures
        first_occupied_from(b, x, y, dx, dy, 0) == k,
{
    lemma_first_occ_char_from(b, x, y, dx, dy, 0, k);
}

proof fn lemma_first_occ_char_from(b: Board, x: int, y: int, dx: int, dy: int, m: int, k: int)
    requires
        0 <= m <= k <= diag_len(x, y, dx, dy),
        forall|t: int|
            m <= t < k ==> !spec_nonempty(b, diag_at(x, y, dx, dy, t).0, diag_at(x, y, dx, dy, t).1),
        k == diag_len(x, y, dx, dy) || spec_nonempty(
            b,
            diag_at(x, y, dx, dy, k).0,
            diag_at(x, y, dx, dy, k).1,
        ),
    ensures
        first_occupied_from(b, x, y, dx, dy, m) == k,
    decreases k - m,
{
    if m < k {
        lemma_first_occ_char_from(b, x, y, dx, dy, m + 1, k);
    }
}

/// The legal steps of a queen on (x, y) in one direction: every square of
/// the diagonal before the first occupied one, nearest first.
pub open spec fn dir_moves(b: Board, x: int, y: int, dx: int, dy: int) -> Seq<SimpleMove> {
    Seq::new(
        first_occupied_from(b, x, y, dx, dy, 0) as nat,
        |k: int| mk_move(x, y, diag_at(x, y, dx, dy, k).0, diag_at(x, y, dx, dy, k).1),
    )
}

/// The legal steps of a queen on (x, y), directions in the fixed order.
pub open spec fn spec_queen_move_list(b: Board, x: int, y: int) -> Seq<SimpleMove> {
    dir_moves(b, x, y, 1, 1) + dir_moves(b, x, y, 1, -1) + dir_moves(b, x, y, -1, 1) + dir_moves(
        b,
        x,
        y,
        -1,
        -1,
    )
}

/// The steps of all the given queens pooled in order.
pub open spec fn queen_moves_concat(b: Board, pieces: Seq<(usize, usize)>, i: int) -> Seq<
    SimpleMove,
>
    decreases pieces.len() - i,
{
    if i < 0 || i >= pieces.len() {
        Seq::<SimpleMove>::empty()
    } else {
        spec_queen_move_list(b, pieces[i].0 as int, pieces[i].1 as int) + queen_moves_concat(
            b,
            pieces,
            i + 1,
        )
    }
}

/// What `get_all_moves` returns: the moving pawns' steps followed by the
/// moving queens' steps.
pub open spec fn spec_all_moves(b: Board, c: CheckersColor) -> Seq<SimpleMove> {
    pawn_moves_concat(b, filter_moving_pawns(b, spec_get_pieces(b, c), 0, c), 0, c)
        + queen_moves_concat(b, filter_moving_queens(b, spec_get_pieces(b, c), 0, c), 0)
}

/// A checked cell write as a value: boards are unchanged by writes to
/// coordinates off the board, to light squares, or of illegal codes.
pub open spec fn spec_set_or_same(b: Board, x: int, y: int, v: u8) -> Board {
    if 0 <= x < 8 && 0 <= y < 8 && (x + y) % 2 == 1 && legal_cell_value(v) {
        b.spec_set_cell(x, y, v)
    } else {
        b
    }
}

/// The cell code of the piece on (x, y); 0 when the square is empty.
pub open spec fn spec_code_at(b: Board, x: int, y: int) -> u8 {
    match b.spec_piece(x, y) {
        Some(p) => p.spec_code(),
        None => 0,
    }
}

/// The board after emptying the captured square of every jump at indices
/// `i..` of the chain, in order.
pub open spec fn spec_remove_captures(b: Board, jumps: Seq<Jump>, i: int) -> Board
    decreases jumps.len() - i,
{
    if i < 0 || i >= jumps.len() {
        b
    } else {
        spec_remove_captures(
            spec_set_or_same(b, jumps[i].x_capture as int, jumps[i].y_capture as int, 0),
            jumps,
            i + 1,
        )
    }
}

/// What `execute_capture` returns: the moving piece's square emptied,
/// every captured square emptied, and the piece's unchanged code written
/// to the last jump's landing square.
pub open spec fn spec_execute_capture(b: Board, jumps: Seq<Jump>) -> Board {
    let code = spec_code_at(b, jumps[0].x_start as int, jumps[0].y_start as int);
    let b1 = spec_set_or_same(b, jumps[0].x_start as int, jumps[0].y_start as int, 0);
    let b2 = spec_remove_captures(b1, jumps, 0);
    spec_set_or_same(
        b2,
        jumps[jumps.len() - 1].x_end as int,
        jumps[jumps.len() - 1].y_end as int,
        code,
    )
}

/// What `execute_move` returns: the start square emptied and the moving
/// piece's unchanged code written to the end square.
pub open spec fn spec_execute_move(b: Board, m: SimpleMove) -> Board {
    spec_set_or_same(
        spec_set_or_same(b, m.x_start as int, m.y_start as int, 0),
        m.x_end as int,
        m.y_end as int,
        spec_code_at(b, m.x_start as int, m.y_start as int),
    )
}

/// The cell value a square has after promotion: a white piece on row 0
/// becomes a white queen, a black piece on row 7 a black queen, and every
/// other square keeps its value.
pub open spec fn spec_promoted_cell(b: Board, x: int, y: int) -> u8 {
    if x == 0 && (b.spec_piece(0, y) matches Some(p) && p.spec_color() == CheckersColor::White) {
        5
    } else if x == 7 && (b.spec_piece(7, y) matches Some(p) && p.spec_color()
        == CheckersColor::Black) {
        7
    } else {
        b.spec_cell(x, y)
    }
}

/// A color has lost: it has no pieces, or none of its pieces has a
/// capture or a step available.
pub open spec fn spec_game_ended(b: Board, c: CheckersColor) -> bool {
    ||| spec_pieces_count(b, c) == 0
    ||| {
        let pieces = spec_get_pieces(b, c);
        &&& filter_capturing_pawns(b, pieces, 0, c).len() == 0
        &&& filter_capturing_queens(b, pieces, 0, c).len() == 0
        &&& filter_moving_pawns(b, pieces, 0, c).len() == 0
        &&& filter_moving_queens(b, pieces, 0, c).len() == 0
    }
}

/// The chains among the given borrowed chains.
pub open spec fn ref_chains_view(s: Seq<&Vec<Jump>>) -> Seq<Seq<Jump>> {
    s.map_values(|chain: &Vec<Jump>| chain@)
}

/// A filter of playable squares lists only playable squares.
proof fn lemma_filter_playable(b: Board, pieces: Seq<(usize, usize)>, i: int, c: CheckersColor)
    requires
        forall|t: int|
            0 <= t < pieces.len() ==> playable((#[trigger] pieces[t]).0 as int, pieces[t].1 as int),
    ensures
        forall|t: int|
            0 <= t < filter_capturing_pawns(b, pieces, i, c).len() ==> playable(
                (#[trigger] filter_capturing_pawns(b, pieces, i, c)[t]).0 as int,
                filter_capturing_pawns(b, pieces, i, c)[t].1 as int,
            ),
        forall|t: int|
            0 <= t < filter_capturing_queens(b, pieces, i, c).len() ==> playable(
                (#[trigger] filter_capturing_queens(b, pieces, i, c)[t]).0 as int,
                filter_capturing_queens(b, pieces, i, c)[t].1 as int,
            ),
        forall|t: int|
            0 <= t < filter_moving_pawns(b, pieces, i, c).len() ==> playable(
                (#[trigger] filter_moving_pawns(b, pieces, i, c)[t]).0 as int,
                filter_moving_pawns(b, pieces, i, c)[t].1 as int,
            ),
        forall|t: int|
            0 <= t < filter_moving_queens(b, pieces, i, c).len() ==> playable(
                (#[trigger] filter_moving_queens(b, pieces, i, c)[t]).0 as int,
                filter_moving_queens(b, pieces, i, c)[t].1 as int,
            ),
    decreases pieces.len() - i,
{
    if 0 <= i < pieces.len() {
        lemma_filter_playable(b, pieces, i + 1, c);
        assert forall|t: int| 0 <= t < filter_capturing_pawns(b, pieces, i, c).len() implies playable(
            (#[trigger] filter_capturing_pawns(b, pieces, i, c)[t]).0 as int,
            filter_capturing_pawns(b, pieces, i, c)[t].1 as int,
        ) by {
            let s = filter_capturing_pawns(b, pieces, i, c);
            let rest = filter_capturing_pawns(b, pieces, i + 1, c);
            if s.len() == rest.len() {
                assert(s[t] == rest[t]);
            } else if t == 0 {
                assert(s[t] == pieces[i]);
            } else {
                assert(s[t] == rest[t - 1]);
            }
        }
        assert forall|t: int|
            0 <= t < filter_capturing_queens(b, pieces, i, c).len() implies playable(
            (#[trigger] filter_capturing_queens(b, pieces, i, c)[t]).0 as int,
            filter_capturing_queens(b, pieces, i, c)[t].1 as int,
        ) by {
            let s = filter_capturing_queens(b, pieces, i, c);
            let rest = filter_capturing_queens(b, pieces, i + 1, c);
            if s.len() == rest.len() {
                assert(s[t] == rest[t]);
            } else if t == 0 {
                assert(s[t] == pieces[i]);
            } else {
                assert(s[t] == rest[t - 1]);
            }
        }
        assert forall|t: int| 0 <= t < filter_moving_pawns(b, pieces, i, c).len() implies playable(
            (#[trigger] filter_moving_pawns(b, pieces, i, c)[t]).0 as int,
            filter_moving_pawns(b, pieces, i, c)[t].1 as int,
        ) by {
            let s = filter_moving_pawns(b, pieces, i, c);
            let rest = filter_moving_pawns(b, pieces, i + 1, c);
            if s.len() == rest.len() {
                assert(s[t] == rest[t]);
            } else if t == 0 {
                assert(s[t] == pieces[i]);
            } else {
                assert(s[t] == rest[t - 1]);
            }
        }
        assert forall|t: int| 0 <= t < filter_moving_queens(b, pieces, i, c).len() implies playable(
            (#[trigger] filter_moving_queens(b, pieces, i, c)[t]).0 as int,
            filter_moving_queens(b, pieces, i, c)[t].1 as int,
        ) by {
            let s = filter_moving_queens(b, pieces, i, c);
            let rest = filter_moving_queens(b, pieces, i + 1, c);
            if s.len() == rest.len() {
                assert(s[t] == rest[t]);
            } else if t == 0 {
                assert(s[t] == pieces[i]);
            } else {
                assert(s[t] == rest[t - 1]);
            }
        }
    }
}

/// A chain the executor accepts: at least one jump, starting on a
/// playable square that holds a piece.
pub open spec fn chain_runnable(b: Board, ch: Seq<Jump>) -> bool {
    &&& ch.len() >= 1
    &&& playable(ch[0].x_start as int, ch[0].y_start as int)
    &&& b.spec_piece(ch[0].x_start as int, ch[0].y_start as int) is Some
}

/// A move the executor accepts: starting on a playable square that holds
/// a piece.
pub open spec fn move_runnable(b: Board, m: SimpleMove) -> bool {
    &&& playable(m.x_start as int, m.y_start as int)
    &&& b.spec_piece(m.x_start as int, m.y_start as int) is Some
}

proof fn lemma_prepend_first(j: Jump, cs: Seq<Seq<Jump>>)
    ensures
        forall|t: int|
            0 <= t < prepend_jump(j, cs).len() ==> (#[trigger] prepend_jump(j, cs)[t]).len() >= 1
                && prepend_jump(j, cs)[t][0] == j,
{
    assert forall|t: int| 0 <= t < prepend_jump(j, cs).len() implies (#[trigger] prepend_jump(
        j,
        cs,
    )[t]).len() >= 1 && prepend_jump(j, cs)[t][0] == j by {
        assert(prepend_jump(j, cs)[t] == seq![j] + cs[t]);
    }
}

/// Every chain of a pawn that can capture is nonempty and starts at the
/// pawn's square.
#[verifier::rlimit(100)]
proof fn lemma_pawn_chains_start(b: Board, x: int, y: int, c: CheckersColor)
    requires
        playable(x, y),
        spec_can_pawn_capture(b, x, y, c),
    ensures
        forall|t: int|
            0 <= t < spec_pawn_chains(b, x, y, c).len() ==> (#[trigger] spec_pawn_chains(
                b,
                x,
                y,
                c,
            )[t]).len() >= 1 && spec_pawn_chains(b, x, y, c)[t][0].x_start == x as usize
                && spec_pawn_chains(b, x, y, c)[t][0].y_start == y as usize,
{
    let s = spec_pawn_chains(b, x, y, c);
    let b1 = if spec_pawn_jump_ok(b, x, y, 1, 1, c) {
        prepend_jump(
            mk_pawn_jump(x, y, 1, 1),
            spec_pawn_chains(b.spec_set_excluded(x + 1, y + 1), x + 2, y + 2, c),
        )
    } else {
        Seq::<Seq<Jump>>::empty()
    };
    let b2 = if spec_pawn_jump_ok(b, x, y, 1, -1, c) {
        prepend_jump(
            mk_pawn_jump(x, y, 1, -1),
            spec_pawn_chains(b.spec_set_excluded(x + 1, y - 1), x + 2, y - 2, c),
        )
    } else {
        Seq::<Seq<Jump>>::empty()
    };
    let b3 = if spec_pawn_jump_ok(b, x, y, -1, 1, c) {
        prepend_jump(
            mk_pawn_jump(x, y, -1, 1),
            spec_pawn_chains(b.spec_set_excluded(x - 1, y + 1), x - 2, y + 2, c),
        )
    } else {
        Seq::<Seq<Jump>>::empty()
    };
    let b4 = if spec_pawn_jump_ok(b, x, y, -1, -1, c) {
        prepend_jump(
            mk_pawn_jump(x, y, -1, -1),
            spec_pawn_chains(b.spec_set_excluded(x - 1, y - 1), x - 2, y - 2, c),
        )
    } else {
        Seq::<Seq<Jump>>::empty()
    };
    assert(s == ((b1 + b2) + b3) + b4);
    if spec_pawn_jump_ok(b, x, y, 1, 1, c) {
        lemma_prepend_first(
            mk_pawn_jump(x, y, 1, 1),
            spec_pawn_chains(b.spec_set_excluded(x + 1, y + 1), x + 2, y + 2, c),
        );
    }
    if spec_pawn_jump_ok(b, x, y, 1, -1, c) {
        lemma_prepend_first(
            mk_pawn_jump(x, y, 1, -1),
            spec_pawn_chains(b.spec_set_excluded(x + 1, y - 1), x + 2, y - 2, c),
        );
    }
    if spec_pawn_jump_ok(b, x, y, -1, 1, c) {
        lemma_prepend_first(
            mk_pawn_jump(x, y, -1, 1),
            spec_pawn_chains(b.spec_set_excluded(x - 1, y + 1), x - 2, y + 2, c),
        );
    }
    if spec_pawn_jump_ok(b, x, y, -1, -1, c) {
        lemma_prepend_first(
            mk_pawn_jump(x, y, -1, -1),
            spec_pawn_chains(b.spec_set_excluded(x - 1, y - 1), x - 2, y - 2, c),
        );
    }
    assert forall|t: int| 0 <= t < s.len() implies (#[trigger] s[t]).len() >= 1 && s[t][0].x_start
        == x as usize && s[t][0].y_start == y as usize by {
        if t < b1.len() {
            assert(s[t] == b1[t]);
        } else if t < b1.len() + b2.len() {
            assert(s[t] == b2[t - b1.len()]);
        } else if t < b1.len() + b2.len() + b3.len() {
            assert(s[t] == b3[t - b1.len() - b2.len()]);
        } else {
            assert(s[t] == b4[t - b1.len() - b2.len() - b3.len()]);
        }
    }
}

/// Every chain of a queen that can capture is nonempty and starts at the
/// queen's square.
proof fn lemma_queen_chains_list_start(
    b: Board,
    list: Seq<Jump>,
    i: int,
    c: CheckersColor,
    x: int,
    y: int,
)
    requires
        0 <= i,
        forall|t: int|
            0 <= t < list.len() ==> (#[trigger] list[t]).x_start == x as usize && list[t].y_start
                == y as usize,
    ensures
        forall|t: int|
            0 <= t < spec_queen_chains_list(b, list, i, c).len() ==> (
            #[trigger] spec_queen_chains_list(b, list, i, c)[t]).len() >= 1
                && spec_queen_chains_list(b, list, i, c)[t][0].x_start == x as usize
                && spec_queen_chains_list(b, list, i, c)[t][0].y_start == y as usize,
    decreases list.len() - i,
{
    if i < list.len() {
        lemma_queen_chains_list_start(b, list, i + 1, c, x, y);
        let s = spec_queen_chains_list(b, list, i, c);
        let rest = spec_queen_chains_list(b, list, i + 1, c);
        let j = list[i];
        assert forall|t: int| 0 <= t < s.len() implies (#[trigger] s[t]).len() >= 1
            && s[t][0].x_start == x as usize && s[t][0].y_start == y as usize by {
            if spec_jump_live(b, j, c) {
                let branch = prepend_jump(
                    j,
                    spec_queen_chains(
                        b.spec_set_excluded(j.x_capture as int, j.y_capture as int),
                        j.x_end as int,
                        j.y_end as int,
                        c,
                    ),
                );
                lemma_prepend_first(
                    j,
                    spec_queen_chains(
                        b.spec_set_excluded(j.x_capture as int, j.y_capture as int),
                        j.x_end as int,
                        j.y_end as int,
                        c,
                    ),
                );
                assert(s == branch + rest);
                if t < branch.len() {
                    assert(s[t] == branch[t]);
                } else {
                    assert(s[t] == rest[t - branch.len()]);
                }
            } else {
                assert(s == Seq::<Seq<Jump>>::empty() + rest);
                assert(s[t] == rest[t]);
            }
        }
    }
}

/// Every piece the capturing filters keep can indeed capture, and holds
/// a piece of the matching kind.
proof fn lemma_filter_cap_guards(b: Board, pieces: Seq<(usize, usize)>, i: int, c: CheckersColor)
    ensures
        forall|t: int|
            0 <= t < filter_capturing_pawns(b, pieces, i, c).len() ==> {
                let p = #[trigger] filter_capturing_pawns(b, pieces, i, c)[t];
                b.spec_piece(p.0 as int, p.1 as int) is Some && spec_can_pawn_capture(
                    b,
                    p.0 as int,
                    p.1 as int,
                    c,
                )
            },
        forall|t: int|
            0 <= t < filter_capturing_queens(b, pieces, i, c).len() ==> {
                let p = #[trigger] filter_capturing_queens(b, pieces, i, c)[t];
                b.spec_piece(p.0 as int, p.1 as int) is Some && spec_can_queen_capture(
                    b,
                    p.0 as int,
                    p.1 as int,
                    c,
                )
            },
    decreases pieces.len() - i,
{
    if 0 <= i < pieces.len() {
        lemma_filter_cap_guards(b, pieces, i + 1, c);
        assert forall|t: int| 0 <= t < filter_capturing_pawns(b, pieces, i, c).len() implies {
            let p = #[trigger] filter_capturing_pawns(b, pieces, i, c)[t];
            b.spec_piece(p.0 as int, p.1 as int) is Some && spec_can_pawn_capture(
                b,
                p.0 as int,
                p.1 as int,
                c,
            )
        } by {
            let s = filter_capturing_pawns(b, pieces, i, c);
            let rest = filter_capturing_pawns(b, pieces, i + 1, c);
            if s.len() == rest.len() {
                assert(s[t] == rest[t]);
            } else if t == 0 {
                assert(s[t] == pieces[i]);
            } else {
                assert(s[t] == rest[t - 1]);
            }
        }
        assert forall|t: int| 0 <= t < filter_capturing_queens(b, pieces, i, c).len() implies {
            let p = #[trigger] filter_capturing_queens(b, pieces, i, c)[t];
            b.spec_piece(p.0 as int, p.1 as int) is Some && spec_can_queen_capture(
                b,
                p.0 as int,
                p.1 as int,
                c,
            )
        } by {
            let s = filter_capturing_queens(b, pieces, i, c);
            let rest = filter_capturing_queens(b, pieces, i + 1, c);
            if s.len() == rest.len() {
                assert(s[t] == rest[t]);
            } else if t == 0 {
                assert(s[t] == pieces[i]);
            } else {
                assert(s[t] == rest[t - 1]);
            }
        }
    }
}

proof fn lemma_pawn_concat_runnable(b: Board, pieces: Seq<(usize, usize)>, i: int, c: CheckersColor)
    requires
        forall|t: int|
            0 <= t < pieces.len() ==> {
                let p = #[trigger] pieces[t];
                &&& playable(p.0 as int, p.1 as int)
                &&& b.spec_piece(p.0 as int, p.1 as int) is Some
                &&& spec_can_pawn_capture(b, p.0 as int, p.1 as int, c)
            },
    ensures
        forall|t: int|
            0 <= t < pawn_chains_concat(b, pieces, i, c).len() ==> chain_runnable(
                b,
                #[trigger] pawn_chains_concat(b, pieces, i, c)[t],
            ),
    decreases pieces.len() - i,
{
    if 0 <= i < pieces.len() {
        lemma_pawn_concat_runnable(b, pieces, i + 1, c);
        let px = pieces[i].0 as int;
        let py = pieces[i].1 as int;
        lemma_pawn_chains_start(b, px, py, c);
        let head = spec_pawn_chains(b, px, py, c);
        let rest = pawn_chains_concat(b, pieces, i + 1, c);
        assert forall|t: int| 0 <= t < pawn_chains_concat(b, pieces, i, c).len() implies
            chain_runnable(b, #[trigger] pawn_chains_concat(b, pieces, i, c)[t]) by {
            if t < head.len() {
                assert(pawn_chains_concat(b, pieces, i, c)[t] == head[t]);
            } else {
                assert(pawn_chains_concat(b, pieces, i, c)[t] == rest[t - head.len()]);
            }
        }
    }
}

proof fn lemma_queen_concat_runnable(
    b: Board,
    pieces: Seq<(usize, usize)>,
    i: int,
    c: CheckersColor,
)
    requires
        forall|t: int|
            0 <= t < pieces.len() ==> {
                let p = #[trigger] pieces[t];
                &&& playable(p.0 as int, p.1 as int)
                &&& b.spec_piece(p.0 as int, p.1 as int) is Some
                &&& spec_can_queen_capture(b, p.0 as int, p.1 as int, c)
            },
    ensures
        forall|t: int|
            0 <= t < queen_chains_concat(b, pieces, i, c).len() ==> chain_runnable(
                b,
                #[trigger] queen_chains_concat(b, pieces, i, c)[t],
            ),
    decreases pieces.len() - i,
{
    if 0 <= i < pieces.len() {
        lemma_queen_concat_runnable(b, pieces, i + 1, c);
        let px = pieces[i].0 as int;
        let py = pieces[i].1 as int;
        lemma_landing_spots_props(b, px, py, c);
        lemma_queen_chains_list_start(b, spec_landing_spots(b, px, py, c), 0, c, px, py);
        let head = spec_queen_chains(b, px, py, c);
        let rest = queen_chains_concat(b, pieces, i + 1, c);
        assert(head == spec_queen_chains_list(b, spec_landing_spots(b, px, py, c), 0, c));
        assert(queen_chains_concat(b, pieces, i, c) == head + rest);
        assert forall|t: int| 0 <= t < queen_chains_concat(b, pieces, i, c).len() implies
            chain_runnable(b, #[trigger] queen_chains_concat(b, pieces, i, c)[t]) by {
            if t < head.len() {
                assert(queen_chains_concat(b, pieces, i, c)[t] == head[t]);
            } else {
                assert(queen_chains_concat(b, pieces, i, c)[t] == rest[t - head.len()]);
            }
        }
    }
}

proof fn lemma_keep_len_runnable(b: Board, s: Seq<Seq<Jump>>, m: nat, i: int)
    requires
        forall|t: int| 0 <= t < s.len() ==> chain_runnable(b, #[trigger] s[t]),
    ensures
        forall|t: int|
            0 <= t < keep_len(s, m, i).len() ==> chain_runnable(b, #[trigger] keep_len(s, m, i)[t]),
    decreases s.len() - i,
{
    if 0 <= i < s.len() {
        lemma_keep_len_runnable(b, s, m, i + 1);
        let out = keep_len(s, m, i);
        let rest = keep_len(s, m, i + 1);
        assert forall|t: int| 0 <= t < out.len() implies chain_runnable(b, #[trigger] out[t]) by {
            if out.len() == rest.len() {
                assert(out[t] == rest[t]);
            } else if t == 0 {
                assert(out[t] == s[i]);
            } else {
                assert(out[t] == rest[t - 1]);
            }
        }
    }
}

/// Every chain `get_all_captures` hands out can be executed: it is
/// nonempty and starts on a square holding a piece.
pub proof fn lemma_all_captures_runnable(b: Board, c: CheckersColor)
    ensures
        forall|t: int|
            0 <= t < spec_all_captures(b, c).len() ==> chain_runnable(
                b,
                #[trigger] spec_all_captures(b, c)[t],
            ),
{
    let pieces = spec_get_pieces(b, c);
    lemma_pieces_from_props(b, c, 0);
    lemma_filter_playable(b, pieces, 0, c);
    lemma_filter_cap_guards(b, pieces, 0, c);
    let cp = filter_capturing_pawns(b, pieces, 0, c);
    let cq = filter_capturing_queens(b, pieces, 0, c);
    lemma_pawn_concat_runnable(b, cp, 0, c);
    lemma_queen_concat_runnable(b, cq, 0, c);
    let pall = pawn_chains_concat(b, cp, 0, c);
    let qall = queen_chains_concat(b, cq, 0, c);
    if pall.len() > 0 {
        lemma_keep_len_runnable(b, pall, max_len_from(pall, 0), 0);
    }
    if qall.len() > 0 {
        lemma_keep_len_runnable(b, qall, max_len_from(qall, 0), 0);
    }
    let pk = spec_pawn_captures(b, cp, c);
    let qk = spec_queen_captures(b, cq, c);
    assert forall|t: int| 0 <= t < spec_all_captures(b, c).len() implies chain_runnable(
        b,
        #[trigger] spec_all_captures(b, c)[t],
    ) by {
        if t < pk.len() {
            assert(spec_all_captures(b, c)[t] == pk[t]);
        } else {
            assert(spec_all_captures(b, c)[t] == qk[t - pk.len()]);
        }
    }
}

proof fn lemma_filter_mov_guards(b: Board, pieces: Seq<(usize, usize)>, i: int, c: CheckersColor)
    ensures
        forall|t: int|
            0 <= t < filter_moving_pawns(b, pieces, i, c).len() ==> {
                let p = #[trigger] filter_moving_pawns(b, pieces, i, c)[t];
                b.spec_piece(p.0 as int, p.1 as int) is Some
            },
        forall|t: int|
            0 <= t < filter_moving_queens(b, pieces, i, c).len() ==> {
                let p = #[trigger] filter_moving_queens(b, pieces, i, c)[t];
                b.spec_piece(p.0 as int, p.1 as int) is Some
            },
    decreases pieces.len() - i,
{
    if 0 <= i < pieces.len() {
        lemma_filter_mov_guards(b, pieces, i + 1, c);
        assert forall|t: int| 0 <= t < filter_moving_pawns(b, pieces, i, c).len() implies {
            let p = #[trigger] filter_moving_pawns(b, pieces, i, c)[t];
            b.spec_piece(p.0 as int, p.1 as int) is Some
        } by {
            let s = filter_moving_pawns(b, pieces, i, c);
            let rest = filter_moving_pawns(b, pieces, i + 1, c);
            if s.len() == rest.len() {
                assert(s[t] == rest[t]);
            } else if t == 0 {
                assert(s[t] == pieces[i]);
            } else {
                assert(s[t] == rest[t - 1]);
            }
        }
        assert forall|t: int| 0 <= t < filter_moving_queens(b, pieces, i, c).len() implies {
            let p = #[trigger] filter_moving_queens(b, pieces, i, c)[t];
            b.spec_piece(p.0 as int, p.1 as int) is Some
        } by {
            let s = filter_moving_queens(b, pieces, i, c);
            let rest = filter_moving_queens(b, pieces, i + 1, c);
            if s.len() == rest.len() {
                assert(s[t] == rest[t]);
            } else if t == 0 {
                assert(s[t] == pieces[i]);
            } else {
                assert(s[t] == rest[t - 1]);
            }
        }
    }
}

proof fn lemma_pawn_moves_concat_runnable(
    b: Board,
    pieces: Seq<(usize, usize)>,
    i: int,
    c: CheckersColor,
)
    requires
        forall|t: int|
            0 <= t < pieces.len() ==> {
                let p = #[trigger] pieces[t];
                &&& playable(p.0 as int, p.1 as int)
                &&& b.spec_piece(p.0 as int, p.1 as int) is Some
            },
    ensures
        forall|t: int|
            0 <= t < pawn_moves_concat(b, pieces, i, c).len() ==> move_runnable(
                b,
                #[trigger] pawn_moves_concat(b, pieces, i, c)[t],
            ),
    decreases pieces.len() - i,
{
    if 0 <= i < pieces.len() {
        lemma_pawn_moves_concat_runnable(b, pieces, i + 1, c);
        let px = pieces[i].0 as int;
        let py = pieces[i].1 as int;
        let head = spec_pawn_move_list(b, px, py, c);
        let rest = pawn_moves_concat(b, pieces, i + 1, c);
        assert forall|t: int| 0 <= t < pawn_moves_concat(b, pieces, i, c).len() implies
            move_runnable(b, #[trigger] pawn_moves_concat(b, pieces, i, c)[t]) by {
            assert(forall|u: int|
                0 <= u < head.len() ==> (#[trigger] head[u]).x_start == px as usize
                    && head[u].y_start == py as usize);
            if t < head.len() {
                assert(pawn_moves_concat(b, pieces, i, c)[t] == head[t]);
            } else {
                assert(pawn_moves_concat(b, pieces, i, c)[t] == rest[t - head.len()]);
            }
        }
    }
}

proof fn lemma_queen_moves_concat_runnable(b: Board, pieces: Seq<(usize, usize)>, i: int)
    requires
        forall|t: int|
            0 <= t < pieces.len() ==> {
                let p = #[trigger] pieces[t];
                &&& playable(p.0 as int, p.1 as int)
                &&& b.spec_piece(p.0 as int, p.1 as int) is Some
            },
    ensures
        forall|t: int|
            0 <= t < queen_moves_concat(b, pieces, i).len() ==> move_runnable(
                b,
                #[trigger] queen_moves_concat(b, pieces, i)[t],
            ),
    decreases pieces.len() - i,
{
    if 0 <= i < pieces.len() {
        lemma_queen_moves_concat_runnable(b, pieces, i + 1);
        let px = pieces[i].0 as int;
        let py = pieces[i].1 as int;
        let head = spec_queen_move_list(b, px, py);
        let rest = queen_moves_concat(b, pieces, i + 1);
        assert forall|t: int| 0 <= t < queen_moves_concat(b, pieces, i).len() implies move_runnable(
            b,
            #[trigger] queen_moves_concat(b, pieces, i)[t],
        ) by {
            assert(forall|u: int|
                0 <= u < head.len() ==> (#[trigger] head[u]).x_start == px as usize
                    && head[u].y_start == py as usize);
            if t < head.len() {
                assert(queen_moves_concat(b, pieces, i)[t] == head[t]);
            } else {
                assert(queen_moves_concat(b, pieces, i)[t] == rest[t - head.len()]);
            }
        }
    }
}

/// Every move `get_all_moves` hands out can be executed: it starts on a
/// square holding a piece.
pub proof fn lemma_all_moves_runnable(b: Board, c: CheckersColor)
    ensures
        forall|t: int|
            0 <= t < spec_all_moves(b, c).len() ==> move_runnable(
                b,
                #[trigger] spec_all_moves(b, c)[t],
            ),
{
    let pieces = spec_get_pieces(b, c);
    lemma_pieces_from_props(b, c, 0);
    lemma_filter_playable(b, pieces, 0, c);
    lemma_filter_mov_guards(b, pieces, 0, c);
    let mp = filter_moving_pawns(b, pieces, 0, c);
    let mq = filter_moving_queens(b, pieces, 0, c);
    lemma_pawn_moves_concat_runnable(b, mp, 0, c);
    lemma_queen_moves_concat_runnable(b, mq, 0);
    let pm = pawn_moves_concat(b, mp, 0, c);
    let qm = queen_moves_concat(b, mq, 0);
    assert forall|t: int| 0 <= t < spec_all_moves(b, c).len() implies move_runnable(
        b,
        #[trigger] spec_all_moves(b, c)[t],
    ) by {
        if t < pm.len() {
            assert(spec_all_moves(b, c)[t] == pm[t]);
        } else {
            assert(spec_all_moves(b, c)[t] == qm[t - pm.len()]);
        }
    }
}

/// Multiplying by a unit direction only keeps or flips the sign.
proof fn lemma_mul_unit(i: int, d: int)
    requires
        d == 1 || d == -1,
    ensures
        d == 1 ==> i * d == i,
        d == -1 ==> i * d == -i,
{
    if d == 1 {
        assert(i * d == i) by (nonlinear_arith)
            requires
                d == 1,
        ;
    } else {
        assert(i * d == -i) by (nonlinear_arith)
            requires
                d == -1,
        ;
    }
}

proof fn lemma_landings_snoc(
    b: Board,
    x: int,
    y: int,
    dx: int,
    dy: int,
    e: int,
    lo: int,
    i: int,
)
    requires
        lo <= i,
    ensures
        landings_between(b, x, y, dx, dy, e, lo, i + 1) == landings_between(
            b,
            x,
            y,
            dx,
            dy,
            e,
            lo,
            i,
        ) + (if landing_ok(b, x, y, dx, dy, i) {
            seq![mk_queen_jump(x, y, dx, dy, i, e)]
        } else {
            Seq::<Jump>::empty()
        }),
    decreases i - lo,
{
    let tail = if landing_ok(b, x, y, dx, dy, i) {
        seq![mk_queen_jump(x, y, dx, dy, i, e)]
    } else {
        Seq::<Jump>::empty()
    };
    if lo == i {
        assert(landings_between(b, x, y, dx, dy, e, lo, lo) == Seq::<Jump>::empty());
        assert(landings_between(b, x, y, dx, dy, e, lo + 1, i + 1) == Seq::<Jump>::empty());
        assert(landings_between(b, x, y, dx, dy, e, lo, i + 1) =~= Seq::<Jump>::empty() + tail);
        assert(landings_between(b, x, y, dx, dy, e, lo, i) + tail =~= Seq::<Jump>::empty() + tail);
    } else {
        lemma_landings_snoc(b, x, y, dx, dy, e, lo + 1, i);
        let head = if landing_ok(b, x, y, dx, dy, lo) {
            seq![mk_queen_jump(x, y, dx, dy, lo, e)]
        } else {
            Seq::<Jump>::empty()
        };
        assert(landings_between(b, x, y, dx, dy, e, lo, i + 1) == head + landings_between(
            b,
            x,
            y,
            dx,
            dy,
            e,
            lo + 1,
            i + 1,
        ));
        assert(landings_between(b, x, y, dx, dy, e, lo, i) == head + landings_between(
            b,
            x,
            y,
            dx,
            dy,
            e,
            lo + 1,
            i,
        ));
        assert((head + landings_between(b, x, y, dx, dy, e, lo + 1, i)) + tail =~= head + (
        landings_between(b, x, y, dx, dy, e, lo + 1, i) + tail));
    }
}

/// The move and capture algorithms; stateless, all methods are associated
/// functions over board values.
pub struct MoveExecutor {}

impl MoveExecutor {
    fn is_pawn_jump_possible(
        board: &Board,
        x: usize,
        y: usize,
        dx: i32,
        dy: i32,
        color: CheckersColor,
    ) -> (r: bool)
        requires
            playable(x as int, y as int),
            dx == 1 || dx == -1,
            dy == 1 || dy == -1,
        ensures
            r == spec_pawn_jump_ok(*board, x as int, y as int, dx as int, dy as int, color),
    {
        let xc = x as i32 + dx;
        let yc = y as i32 + dy;
        if !is_in_bounds(xc, yc) {
            return false;
        }
        let xl = x as i32 + 2 * dx;
        let yl = y as i32 + 2 * dy;
        if !is_in_bounds(xl, yl) {
            return false;
        }
        if board.excluded_at(xc as usize, yc as usize) {
            return false;
        }
        match board.piece_at(xc as usize, yc as usize) {
            None => false,
            Some(p) => {
                if p.color() == color {
                    false
                } else {
                    match board.piece_at(xl as usize, yl as usize) {
                        None => true,
                        Some(_) => false,
                    }
                }
            },
        }
    }

    fn can_pawn_capture(board: &Board, x: usize, y: usize, color: CheckersColor) -> (r: bool)
        requires
            playable(x as int, y as int),
        ensures
            r == spec_can_pawn_capture(*board, x as int, y as int, color),
    {
        Self::is_pawn_jump_possible(board, x, y, 1, 1, color) || Self::is_pawn_jump_possible(
            board,
            x,
            y,
            1,
            -1,
            color,
        ) || Self::is_pawn_jump_possible(board, x, y, -1, 1, color)
            || Self::is_pawn_jump_possible(board, x, y, -1, -1, color)
    }

    #[verifier::rlimit(100)]
    fn pawn_branch_paths(
        board: &Board,
        x: usize,
        y: usize,
        dx: i32,
        dy: i32,
        color: CheckersColor,
        result: &mut Vec<Vec<Jump>>,
    )
        requires
            playable(x as int, y as int),
            dx == 1 || dx == -1,
            dy == 1 || dy == -1,
        ensures
            chains_view(final(result)@) == chains_view(old(result)@) + spec_pawn_branch(
                *board,
                x as int,
                y as int,
                dx as int,
                dy as int,
                color,
            ),
        decreases capturable_count(*board, color), 0int,
    {
        let ghost branch = spec_pawn_branch(*board, x as int, y as int, dx as int, dy as int, color);
        if !Self::is_pawn_jump_possible(board, x, y, dx, dy, color) {
            proof {
                assert(chains_view(result@) + branch =~= chains_view(result@));
            }
            return ;
        }
        let xc = (x as i32 + dx) as usize;
        let yc = (y as i32 + dy) as usize;
        let xe = (x as i32 + 2 * dx) as usize;
        let ye = (y as i32 + 2 * dy) as usize;
        let jump = Jump { x_start: x, y_start: y, x_end: xe, y_end: ye, x_capture: xc, y_capture: yc };
        proof {
            assert(jump == mk_pawn_jump(x as int, y as int, dx as int, dy as int));
        }
        let mut bc = board.clone();
        let _ = bc.set_field_excluded(xc, yc);
        proof {
            assert(bc == board.spec_set_excluded(xc as int, yc as int));
            lemma_exclude_decreases(*board, color, xc as int, yc as int);
        }
        let sub = Self::pawn_capture_paths(&bc, xe, ye, color);
        let ghost spec_sub = spec_pawn_chains(bc, xe as int, ye as int, color);
        let ghost pre = chains_view(result@);
        let mut k: usize = 0;
        while k < sub.len()
            invariant
                k <= sub.len(),
                chains_view(sub@) == spec_sub,
                chains_view(result@) == pre + prepend_jump(jump, spec_sub).subrange(0, k as int),
            decreases sub.len() - k,
        {
            let mut chain: Vec<Jump> = Vec::new();
            chain.push(jump);
            let mut t: usize = 0;
            while t < sub[k].len()
                invariant
                    k < sub.len(),
                    t <= sub[k as int].len(),
                    chain@ == seq![jump] + sub[k as int]@.subrange(0, t as int),
                decreases sub[k as int].len() - t,
            {
                let item = sub[k][t];
                chain.push(item);
                proof {
                    assert(chain@ =~= seq![jump] + sub[k as int]@.subrange(0, t + 1));
                }
                t = t + 1;
            }
            proof {
                let pj = prepend_jump(jump, spec_sub);
                assert(sub[k as int]@.subrange(0, sub[k as int]@.len() as int) =~= sub[k as int]@);
                assert(chain@ == seq![jump] + sub[k as int]@);
                assert(sub[k as int]@ == spec_sub[k as int]);
                assert(pj[k as int] == seq![jump] + spec_sub[k as int]);
                assert(chain@ == pj[k as int]);
            }
            let ghost before = result@;
            result.push(chain);
            proof {
                let pj = prepend_jump(jump, spec_sub);
                assert(result@ == before.push(chain));
                assert(pj.subrange(0, k + 1) =~= pj.subrange(0, k as int).push(pj[k as int]));
                assert(chains_view(result@) =~= chains_view(before).push(chain@));
                assert(chains_view(result@) =~= pre + pj.subrange(0, k + 1));
            }
            k = k + 1;
        }
        proof {
            assert(prepend_jump(jump, spec_sub).subrange(
                0,
                prepend_jump(jump, spec_sub).len() as int,
            ) =~= prepend_jump(jump, spec_sub));
            assert(branch == prepend_jump(jump, spec_sub));
        }
    }

    #[verifier::rlimit(100)]
    fn pawn_capture_paths(board: &Board, x: usize, y: usize, color: CheckersColor) -> (r: Vec<
        Vec<Jump>,
    >)
        requires
            playable(x as int, y as int),
        ensures
            chains_view(r@) == spec_pawn_chains(*board, x as int, y as int, color),
        decreases capturable_count(*board, color), 1int,
    {
        let mut result: Vec<Vec<Jump>> = Vec::new();
        if !Self::can_pawn_capture(board, x, y, color) {
            result.push(Vec::new());
            proof {
                assert(chains_view(result@) =~= seq![Seq::<Jump>::empty()]);
            }
            return result;
        }
        proof {
            assert(chains_view(result@) =~= Seq::<Seq<Jump>>::empty());
        }
        Self::pawn_branch_paths(board, x, y, 1, 1, color, &mut result);
        Self::pawn_branch_paths(board, x, y, 1, -1, color, &mut result);
        Self::pawn_branch_paths(board, x, y, -1, 1, color, &mut result);
        Self::pawn_branch_paths(board, x, y, -1, -1, color, &mut result);
        proof {
            let b = *board;
            let xi = x as int;
            let yi = y as int;
            let s1 = spec_pawn_branch(b, xi, yi, 1, 1, color);
            let s2 = spec_pawn_branch(b, xi, yi, 1, -1, color);
            let s3 = spec_pawn_branch(b, xi, yi, -1, 1, color);
            let s4 = spec_pawn_branch(b, xi, yi, -1, -1, color);
            assert(Seq::<Seq<Jump>>::empty() + s1 =~= s1);
            assert(chains_view(result@) == ((s1 + s2) + s3) + s4);
            assert(spec_pawn_chains(b, xi, yi, color) == ((s1 + s2) + s3) + s4);
        }
        result
    }

    /// The on-board squares of the diagonal from (x, y) in direction
    /// (dx, dy), nearest first.
    fn diagonal(x: usize, y: usize, dx: i32, dy: i32) -> (r: Vec<(usize, usize)>)
        requires
            x < 8,
            y < 8,
            dx == 1 || dx == -1,
            dy == 1 || dy == -1,
        ensures
            r@.len() == diag_len(x as int, y as int, dx as int, dy as int),
            forall|t: int|
                0 <= t < r@.len() ==> (#[trigger] r@[t]).0 as int == diag_at(
                    x as int,
                    y as int,
                    dx as int,
                    dy as int,
                    t,
                ).0 && r@[t].1 as int == diag_at(x as int, y as int, dx as int, dy as int, t).1,
    {
        let ghost dlen = diag_len(x as int, y as int, dx as int, dy as int);
        let mut r: Vec<(usize, usize)> = Vec::new();
        let mut i: i32 = 1;
        while i < 8
            invariant
                1 <= i <= 8,
                x < 8,
                y < 8,
                dx == 1 || dx == -1,
                dy == 1 || dy == -1,
                dlen == diag_len(x as int, y as int, dx as int, dy as int),
                r@.len() == (if i - 1 <= dlen {
                    i - 1
                } else {
                    dlen
                }),
                forall|t: int|
                    0 <= t < r@.len() ==> (#[trigger] r@[t]).0 as int == diag_at(
                        x as int,
                        y as int,
                        dx as int,
                        dy as int,
                        t,
                    ).0 && r@[t].1 as int == diag_at(x as int, y as int, dx as int, dy as int, t).1,
            decreases 8 - i,
        {
            proof {
                lemma_mul_unit(i as int, dx as int);
                lemma_mul_unit(i as int, dy as int);
            }
            let cx = x as i32 + i * dx;
            let cy = y as i32 + i * dy;
            if is_in_bounds(cx, cy) {
                proof {
                    assert(i - 1 < dlen && i <= dlen);
                }
                r.push((cx as usize, cy as usize));
            } else {
                proof {
                    assert(i - 1 >= dlen);
                }
            }
            i = i + 1;
        }
        r
    }

    fn is_queen_jump_possible(
        board: &Board,
        x: usize,
        y: usize,
        dx: i32,
        dy: i32,
        color: CheckersColor,
    ) -> (r: bool)
        requires
            playable(x as int, y as int),
            dx == 1 || dx == -1,
            dy == 1 || dy == -1,
        ensures
            r == spec_queen_jump_ok(*board, x as int, y as int, dx as int, dy as int, color),
    {
        let ghost bi = *board;
        let ghost xi = x as int;
        let ghost yi = y as int;
        let ghost dxi = dx as int;
        let ghost dyi = dy as int;
        let diag = Self::diagonal(x, y, dx, dy);
        if diag.len() < 2 {
            return false;
        }
        let mut k: usize = 0;
        while k < diag.len() - 1
            invariant
                playable(xi, yi),
                dxi == 1 || dxi == -1,
                dyi == 1 || dyi == -1,
                xi == x as int && yi == y as int && dxi == dx as int && dyi == dy as int && bi
                    == *board,
                diag@.len() == diag_len(xi, yi, dxi, dyi),
                2 <= diag@.len(),
                forall|t: int|
                    0 <= t < diag@.len() ==> (#[trigger] diag@[t]).0 as int == diag_at(
                        xi,
                        yi,
                        dxi,
                        dyi,
                        t,
                    ).0 && diag@[t].1 as int == diag_at(xi, yi, dxi, dyi, t).1,
                0 <= k <= diag@.len() - 1,
                queen_jump_scan(bi, xi, yi, dxi, dyi, color, 0) == queen_jump_scan(
                    bi,
                    xi,
                    yi,
                    dxi,
                    dyi,
                    color,
                    k as int,
                ),
            decreases diag.len() - k,
        {
            proof {
                lemma_diag_playable(xi, yi, dxi, dyi, k as int);
            }
            let (cx, cy) = diag[k];
            if board.excluded_at(cx, cy) {
                return false;
            }
            match board.piece_at(cx, cy) {
                None => {
                    k = k + 1;
                },
                Some(p) => {
                    proof {
                        if k as int + 1 < diag_len(xi, yi, dxi, dyi) {
                            lemma_diag_playable(xi, yi, dxi, dyi, k as int + 1);
                        }
                    }
                    let (nx2, ny2) = diag[k + 1];
                    let emp = match board.piece_at(nx2, ny2) {
                        None => true,
                        Some(_) => false,
                    };
                    return emp && p.color() != color;
                },
            }
        }
        false
    }

    fn can_queen_capture(board: &Board, x: usize, y: usize, color: CheckersColor) -> (r: bool)
        requires
            playable(x as int, y as int),
        ensures
            r == spec_can_queen_capture(*board, x as int, y as int, color),
    {
        Self::is_queen_jump_possible(board, x, y, 1, 1, color) || Self::is_queen_jump_possible(
            board,
            x,
            y,
            1,
            -1,
            color,
        ) || Self::is_queen_jump_possible(board, x, y, -1, 1, color)
            || Self::is_queen_jump_possible(board, x, y, -1, -1, color)
    }

    #[verifier::rlimit(100)]
    fn queen_dir_landings(
        board: &Board,
        x: usize,
        y: usize,
        dx: i32,
        dy: i32,
        color: CheckersColor,
        result: &mut Vec<Jump>,
    )
        requires
            playable(x as int, y as int),
            dx == 1 || dx == -1,
            dy == 1 || dy == -1,
        ensures
            final(result)@ == old(result)@ + dir_landings(
                *board,
                x as int,
                y as int,
                dx as int,
                dy as int,
                color,
            ),
    {
        let ghost bi = *board;
        let ghost xi = x as int;
        let ghost yi = y as int;
        let ghost dxi = dx as int;
        let ghost dyi = dy as int;
        let ghost dl = dir_landings(bi, xi, yi, dxi, dyi, color);
        let ghost pre = result@;
        let diag = Self::diagonal(x, y, dx, dy);
        let n = diag.len();
        let mut k: usize = 0;
        let mut found = false;
        while k < n && !found
            invariant
                playable(xi, yi),
                dxi == 1 || dxi == -1,
                dyi == 1 || dyi == -1,
                xi == x as int && yi == y as int && dxi == dx as int && dyi == dy as int && bi
                    == *board,
                n == diag@.len(),
                diag@.len() == diag_len(xi, yi, dxi, dyi),
                forall|t: int|
                    0 <= t < diag@.len() ==> (#[trigger] diag@[t]).0 as int == diag_at(
                        xi,
                        yi,
                        dxi,
                        dyi,
                        t,
                    ).0 && diag@[t].1 as int == diag_at(xi, yi, dxi, dyi, t).1,
                k <= n,
                forall|t: int| 0 <= t < k ==> !nxo(bi, xi, yi, dxi, dyi, t),
                found ==> k < n && nxo(bi, xi, yi, dxi, dyi, k as int),
            decreases n - k + (if found {
                0int
            } else {
                1int
            }),
        {
            proof {
                lemma_diag_playable(xi, yi, dxi, dyi, k as int);
            }
            let (cx, cy) = diag[k];
            let occ = !board.excluded_at(cx, cy) && match board.piece_at(cx, cy) {
                Some(_) => true,
                None => false,
            };
            if occ {
                found = true;
            } else {
                k = k + 1;
            }
        }
        if !found {
            proof {
                lemma_fb_char(bi, xi, yi, dxi, dyi, 0, n as int);
                assert(dl =~= Seq::<Jump>::empty());
                assert(result@ =~= pre + dl);
            }
            return ;
        }
        let e = k;
        proof {
            lemma_fb_char(bi, xi, yi, dxi, dyi, 0, e as int);
            lemma_diag_playable(xi, yi, dxi, dyi, e as int);
        }
        let (ex, ey) = diag[e];
        let enemy = match board.piece_at(ex, ey) {
            Some(p) => p.color() != color,
            None => false,
        };
        if !enemy {
            proof {
                assert(dl =~= Seq::<Jump>::empty());
                assert(result@ =~= pre + dl);
            }
            return ;
        }
        let mut i = e + 1;
        let mut stop = false;
        while i < n && !stop
            invariant
                playable(xi, yi),
                dxi == 1 || dxi == -1,
                dyi == 1 || dyi == -1,
                xi == x as int && yi == y as int && dxi == dx as int && dyi == dy as int && bi
                    == *board,
                n == diag@.len(),
                diag@.len() == diag_len(xi, yi, dxi, dyi),
                forall|t: int|
                    0 <= t < diag@.len() ==> (#[trigger] diag@[t]).0 as int == diag_at(
                        xi,
                        yi,
                        dxi,
                        dyi,
                        t,
                    ).0 && diag@[t].1 as int == diag_at(xi, yi, dxi, dyi, t).1,
                e < n,
                nxo(bi, xi, yi, dxi, dyi, e as int),
                spec_enemy_at(
                    bi,
                    diag_at(xi, yi, dxi, dyi, e as int).0,
                    diag_at(xi, yi, dxi, dyi, e as int).1,
                    color,
                ),
                fb_from(bi, xi, yi, dxi, dyi, 0) == e,
                ex as int == diag_at(xi, yi, dxi, dyi, e as int).0,
                ey as int == diag_at(xi, yi, dxi, dyi, e as int).1,
                e < i <= n,
                forall|t: int| e < t < i ==> !nxo(bi, xi, yi, dxi, dyi, t),
                stop ==> i < n && nxo(bi, xi, yi, dxi, dyi, i as int),
                result@ == pre + landings_between(bi, xi, yi, dxi, dyi, e as int, e + 1, i as int),
            decreases n - i + (if stop {
                0int
            } else {
                1int
            }),
        {
            proof {
                lemma_diag_playable(xi, yi, dxi, dyi, i as int);
            }
            let (cx, cy) = diag[i];
            if board.excluded_at(cx, cy) {
                proof {
                    lemma_landings_snoc(bi, xi, yi, dxi, dyi, e as int, e + 1, i as int);
                    assert(result@ =~= pre + landings_between(
                        bi,
                        xi,
                        yi,
                        dxi,
                        dyi,
                        e as int,
                        e + 1,
                        i + 1,
                    ));
                }
                i = i + 1;
            } else {
                match board.piece_at(cx, cy) {
                    Some(_) => {
                        stop = true;
                    },
                    None => {
                        let jump = Jump {
                            x_start: x,
                            y_start: y,
                            x_end: cx,
                            y_end: cy,
                            x_capture: ex,
                            y_capture: ey,
                        };
                        proof {
                            assert(jump == mk_queen_jump(xi, yi, dxi, dyi, i as int, e as int));
                            lemma_landings_snoc(bi, xi, yi, dxi, dyi, e as int, e + 1, i as int);
                        }
                        result.push(jump);
                        proof {
                            assert(result@ =~= pre + landings_between(
                                bi,
                                xi,
                                yi,
                                dxi,
                                dyi,
                                e as int,
                                e + 1,
                                i + 1,
                            ));
                        }
                        i = i + 1;
                    },
                }
            }
        }
        proof {
            if stop {
                lemma_fb_char(bi, xi, yi, dxi, dyi, e + 1, i as int);
            } else {
                lemma_fb_char(bi, xi, yi, dxi, dyi, e + 1, n as int);
            }
            assert(dl == landings_between(
                bi,
                xi,
                yi,
                dxi,
                dyi,
                e as int,
                e + 1,
                fb_from(bi, xi, yi, dxi, dyi, e + 1),
            ));
        }
    }

    fn get_queen_landing_spots(board: &Board, x: usize, y: usize, color: CheckersColor) -> (r:
        Vec<Jump>)
        requires
            playable(x as int, y as int),
        ensures
            r@ == spec_landing_spots(*board, x as int, y as int, color),
    {
        let mut r: Vec<Jump> = Vec::new();
        Self::queen_dir_landings(board, x, y, 1, 1, color, &mut r);
        Self::queen_dir_landings(board, x, y, 1, -1, color, &mut r);
        Self::queen_dir_landings(board, x, y, -1, 1, color, &mut r);
        Self::queen_dir_landings(board, x, y, -1, -1, color, &mut r);
        proof {
            let b = *board;
            let xi = x as int;
            let yi = y as int;
            let s1 = dir_landings(b, xi, yi, 1, 1, color);
            let s2 = dir_landings(b, xi, yi, 1, -1, color);
            let s3 = dir_landings(b, xi, yi, -1, 1, color);
            let s4 = dir_landings(b, xi, yi, -1, -1, color);
            assert(Seq::<Jump>::empty() + s1 =~= s1);
            assert(r@ == ((s1 + s2) + s3) + s4);
        }
        r
    }

    /// Prefixes `jump` to every chain of `sub` and pushes the results, in
    /// order, onto `result`.
    #[verifier::rlimit(100)]
    fn push_prepended(jump: Jump, sub: &Vec<Vec<Jump>>, result: &mut Vec<Vec<Jump>>)
        ensures
            chains_view(final(result)@) == chains_view(old(result)@) + prepend_jump(
                jump,
                chains_view(sub@),
            ),
    {
        let ghost spec_sub = chains_view(sub@);
        let ghost pre = chains_view(result@);
        let mut k: usize = 0;
        while k < sub.len()
            invariant
                k <= sub.len(),
                spec_sub == chains_view(sub@),
                pre == chains_view(old(result)@),
                chains_view(result@) == pre + prepend_jump(jump, spec_sub).subrange(0, k as int),
            decreases sub.len() - k,
        {
            let mut chain: Vec<Jump> = Vec::new();
            chain.push(jump);
            let mut t: usize = 0;
            while t < sub[k].len()
                invariant
                    k < sub.len(),
                    t <= sub[k as int].len(),
                    chain@ == seq![jump] + sub[k as int]@.subrange(0, t as int),
                decreases sub[k as int].len() - t,
            {
                let item = sub[k][t];
                chain.push(item);
                proof {
                    assert(chain@ =~= seq![jump] + sub[k as int]@.subrange(0, t + 1));
                }
                t = t + 1;
            }
            proof {
                let pj = prepend_jump(jump, spec_sub);
                assert(sub[k as int]@.subrange(0, sub[k as int]@.len() as int) =~= sub[k as int]@);
                assert(chain@ == seq![jump] + sub[k as int]@);
                assert(sub[k as int]@ == spec_sub[k as int]);
                assert(pj[k as int] == seq![jump] + spec_sub[k as int]);
                assert(chain@ == pj[k as int]);
            }
            let ghost before = result@;
            result.push(chain);
            proof {
                let pj = prepend_jump(jump, spec_sub);
                assert(result@ == before.push(chain));
                assert(pj.subrange(0, k + 1) =~= pj.subrange(0, k as int).push(pj[k as int]));
                assert(chains_view(result@) =~= chains_view(before).push(chain@));
                assert(chains_view(result@) =~= pre + pj.subrange(0, k + 1));
            }
            k = k + 1;
        }
        proof {
            let pj = prepend_jump(jump, spec_sub);
            assert(pj.subrange(0, pj.len() as int) =~= pj);
        }
    }

    fn is_move_possible(board: &Board, x: usize, y: usize, dx: i32, dy: i32) -> (r: bool)
        requires
            playable(x as int, y as int),
            dx == 1 || dx == -1,
            dy == 1 || dy == -1,
        ensures
            r == spec_move_ok(*board, x as int, y as int, dx as int, dy as int),
    {
        let xt = x as i32 + dx;
        let yt = y as i32 + dy;
        if is_in_bounds(xt, yt) {
            match board.piece_at(xt as usize, yt as usize) {
                None => true,
                Some(_) => false,
            }
        } else {
            false
        }
    }

    fn can_pawn_move(board: &Board, x: usize, y: usize, color: CheckersColor) -> (r: bool)
        requires
            playable(x as int, y as int),
        ensures
            r == spec_can_pawn_move(*board, x as int, y as int, color),
    {
        match color {
            CheckersColor::White => Self::is_move_possible(board, x, y, -1, -1)
                || Self::is_move_possible(board, x, y, -1, 1),
            CheckersColor::Black => Self::is_move_possible(board, x, y, 1, -1)
                || Self::is_move_possible(board, x, y, 1, 1),
        }
    }

    fn can_queen_move(board: &Board, x: usize, y: usize) -> (r: bool)
        requires
            playable(x as int, y as int),
        ensures
            r == spec_can_queen_move(*board, x as int, y as int),
    {
        Self::is_move_possible(board, x, y, 1, 1) || Self::is_move_possible(board, x, y, 1, -1)
            || Self::is_move_possible(board, x, y, -1, 1) || Self::is_move_possible(
            board,
            x,
            y,
            -1,
            -1,
        )
    }

    /// The coordinates of every piece of the given color, in row-major
    /// enumeration order.
    pub fn get_pieces(board: &Board, color: CheckersColor) -> (r: Vec<(usize, usize)>)
        ensures
            r@ == spec_get_pieces(*board, color),
    {
        let mut r: Vec<(usize, usize)> = Vec::new();
        let ghost total = spec_pieces_from(*board, color, 0);
        proof {
            assert(r@ + total =~= total);
        }
        let mut pos: usize = 0;
        while pos < 64
            invariant
                pos <= 64,
                total == spec_pieces_from(*board, color, 0),
                r@ + spec_pieces_from(*board, color, pos as int) == total,
            decreases 64 - pos,
        {
            let x = pos / 8;
            let y = pos % 8;
            let mut hit = false;
            if (x + y) % 2 == 1 {
                match board.piece_at(x, y) {
                    Some(p) => {
                        if p.color() == color {
                            hit = true;
                        }
                    },
                    None => {},
                }
            }
            proof {
                assert(spec_pieces_from(*board, color, pos as int) == (if has_color(
                    *board,
                    pos as int / 8,
                    pos as int % 8,
                    color,
                ) {
                    seq![(((pos as int / 8) as usize), ((pos as int % 8) as usize))]
                } else {
                    Seq::<(usize, usize)>::empty()
                }) + spec_pieces_from(*board, color, pos as int + 1));
            }
            if hit {
                let ghost before = r@;
                r.push((x, y));
                proof {
                    assert(r@ + spec_pieces_from(*board, color, pos as int + 1) =~= before
                        + spec_pieces_from(*board, color, pos as int));
                }
            } else {
                proof {
                    assert(r@ + spec_pieces_from(*board, color, pos as int + 1) =~= r@
                        + spec_pieces_from(*board, color, pos as int));
                }
            }
            pos = pos + 1;
        }
        proof {
            assert(r@ + spec_pieces_from(*board, color, 64) =~= r@);
        }
        r
    }

    /// Splits the given pieces into the pawns and the queens that have at
    /// least one capturing jump available right now.
    pub fn get_capturing_pieces(
        board: &Board,
        pieces: &[(usize, usize)],
        color: CheckersColor,
    ) -> (r: (Vec<(usize, usize)>, Vec<(usize, usize)>))
        requires
            forall|t: int|
                0 <= t < pieces@.len() ==> playable(
                    (#[trigger] pieces@[t]).0 as int,
                    pieces@[t].1 as int,
                ),
        ensures
            r.0@ == filter_capturing_pawns(*board, pieces@, 0, color),
            r.1@ == filter_capturing_queens(*board, pieces@, 0, color),
    {
        let b = *board;
        let mut cap_pawns: Vec<(usize, usize)> = Vec::new();
        let mut cap_queens: Vec<(usize, usize)> = Vec::new();
        let ghost tp = filter_capturing_pawns(b, pieces@, 0, color);
        let ghost tq = filter_capturing_queens(b, pieces@, 0, color);
        proof {
            assert(cap_pawns@ + tp =~= tp);
            assert(cap_queens@ + tq =~= tq);
        }
        let mut i: usize = 0;
        while i < pieces.len()
            invariant
                i <= pieces@.len(),
                b == *board,
                forall|t: int|
                    0 <= t < pieces@.len() ==> playable(
                        (#[trigger] pieces@[t]).0 as int,
                        pieces@[t].1 as int,
                    ),
                tp == filter_capturing_pawns(b, pieces@, 0, color),
                tq == filter_capturing_queens(b, pieces@, 0, color),
                cap_pawns@ + filter_capturing_pawns(b, pieces@, i as int, color) == tp,
                cap_queens@ + filter_capturing_queens(b, pieces@, i as int, color) == tq,
            decreases pieces@.len() - i,
        {
            let (x, y) = pieces[i];
            let ghost pawns_before = cap_pawns@;
            let ghost queens_before = cap_queens@;
            match board.piece_at(x, y) {
                None => {},
                Some(Piece::Pawn(_)) => {
                    if Self::can_pawn_capture(board, x, y, color) {
                        cap_pawns.push((x, y));
                    }
                },
                Some(Piece::Queen(_)) => {
                    if Self::can_queen_capture(board, x, y, color) {
                        cap_queens.push((x, y));
                    }
                },
            }
            proof {
                assert(cap_pawns@ + filter_capturing_pawns(b, pieces@, i + 1, color) =~= pawns_before
                    + filter_capturing_pawns(b, pieces@, i as int, color));
                assert(cap_queens@ + filter_capturing_queens(b, pieces@, i + 1, color)
                    =~= queens_before + filter_capturing_queens(b, pieces@, i as int, color));
            }
            i = i + 1;
        }
        proof {
            assert(cap_pawns@ + filter_capturing_pawns(b, pieces@, pieces@.len() as int, color)
                =~= cap_pawns@);
            assert(cap_queens@ + filter_capturing_queens(b, pieces@, pieces@.len() as int, color)
                =~= cap_queens@);
        }
        (cap_pawns, cap_queens)
    }

    /// Splits the given pieces into the pawns and the queens that have at
    /// least one legal non-capturing step available.
    pub fn get_moving_pieces(
        board: &Board,
        pieces: &[(usize, usize)],
        color: CheckersColor,
    ) -> (r: (Vec<(usize, usize)>, Vec<(usize, usize)>))
        requires
            forall|t: int|
                0 <= t < pieces@.len() ==> playable(
                    (#[trigger] pieces@[t]).0 as int,
                    pieces@[t].1 as int,
                ),
        ensures
            r.0@ == filter_moving_pawns(*board, pieces@, 0, color),
            r.1@ == filter_moving_queens(*board, pieces@, 0, color),
    {
        let b = *board;
        let mut mov_pawns: Vec<(usize, usize)> = Vec::new();
        let mut mov_queens: Vec<(usize, usize)> = Vec::new();
        let ghost tp = filter_moving_pawns(b, pieces@, 0, color);
        let ghost tq = filter_moving_queens(b, pieces@, 0, color);
        proof {
            assert(mov_pawns@ + tp =~= tp);
            assert(mov_queens@ + tq =~= tq);
        }
        let mut i: usize = 0;
        while i < pieces.len()
            invariant
                i <= pieces@.len(),
                b == *board,
                forall|t: int|
                    0 <= t < pieces@.len() ==> playable(
                        (#[trigger] pieces@[t]).0 as int,
                        pieces@[t].1 as int,
                    ),
                tp == filter_moving_pawns(b, pieces@, 0, color),
                tq == filter_moving_queens(b, pieces@, 0, color),
                mov_pawns@ + filter_moving_pawns(b, pieces@, i as int, color) == tp,
                mov_queens@ + filter_moving_queens(b, pieces@, i as int, color) == tq,
            decreases pieces@.len() - i,
        {
            let (x, y) = pieces[i];
            let ghost pawns_before = mov_pawns@;
            let ghost queens_before = mov_queens@;
            match board.piece_at(x, y) {
                None => {},
                Some(Piece::Pawn(_)) => {
                    if Self::can_pawn_move(board, x, y, color) {
                        mov_pawns.push((x, y));
                    }
                },
                Some(Piece::Queen(_)) => {
                    if Self::can_queen_move(board, x, y) {
                        mov_queens.push((x, y));
                    }
                },
            }
            proof {
                assert(mov_pawns@ + filter_moving_pawns(b, pieces@, i + 1, color) =~= pawns_before
                    + filter_moving_pawns(b, pieces@, i as int, color));
                assert(mov_queens@ + filter_moving_queens(b, pieces@, i + 1, color)
                    =~= queens_before + filter_moving_queens(b, pieces@, i as int, color));
            }
            i = i + 1;
        }
        proof {
            assert(mov_pawns@ + filter_moving_pawns(b, pieces@, pieces@.len() as int, color)
                =~= mov_pawns@);
            assert(mov_queens@ + filter_moving_queens(b, pieces@, pieces@.len() as int, color)
                =~= mov_queens@);
        }
        (mov_pawns, mov_queens)
    }

    #[verifier::rlimit(100)]
    fn queen_capture_paths(board: &Board, x: usize, y: usize, color: CheckersColor) -> (r: Vec<
        Vec<Jump>,
    >)
        requires
            playable(x as int, y as int),
        ensures
            chains_view(r@) == spec_queen_chains(*board, x as int, y as int, color),
        decreases capturable_count(*board, color),
    {
        let ghost bi = *board;
        let ghost xi = x as int;
        let ghost yi = y as int;
        let mut result: Vec<Vec<Jump>> = Vec::new();
        if !Self::can_queen_capture(board, x, y, color) {
            result.push(Vec::new());
            proof {
                assert(chains_view(result@) =~= seq![Seq::<Jump>::empty()]);
            }
            return result;
        }
        let spots = Self::get_queen_landing_spots(board, x, y, color);
        let ghost slist = spec_landing_spots(bi, xi, yi, color);
        proof {
            lemma_landing_spots_props(bi, xi, yi, color);
            assert(chains_view(result@) =~= Seq::<Seq<Jump>>::empty());
            assert(Seq::<Seq<Jump>>::empty() + spec_queen_chains_list(bi, slist, 0, color)
                =~= spec_queen_chains_list(bi, slist, 0, color));
        }
        let mut i: usize = 0;
        while i < spots.len()
            invariant
                playable(xi, yi),
                xi == x as int && yi == y as int && bi == *board,
                spots@ == slist,
                slist == spec_landing_spots(bi, xi, yi, color),
                i <= spots@.len(),
                forall|t: int|
                    0 <= t < slist.len() ==> {
                        let j = #[trigger] slist[t];
                        &&& spec_jump_live(bi, j, color)
                    },
                chains_view(result@) + spec_queen_chains_list(bi, slist, i as int, color)
                    == spec_queen_chains_list(bi, slist, 0, color),
            decreases spots@.len() - i,
        {
            let j = spots[i];
            proof {
                assert(spec_jump_live(bi, j, color));
                lemma_exclude_decreases(bi, color, j.x_capture as int, j.y_capture as int);
            }
            let mut bc = board.clone();
            let _ = bc.set_field_excluded(j.x_capture, j.y_capture);
            proof {
                assert(bc == bi.spec_set_excluded(j.x_capture as int, j.y_capture as int));
            }
            let sub = Self::queen_capture_paths(&bc, j.x_end, j.y_end, color);
            let ghost pre = chains_view(result@);
            Self::push_prepended(j, &sub, &mut result);
            proof {
                let branch = prepend_jump(
                    j,
                    spec_queen_chains(
                        bi.spec_set_excluded(j.x_capture as int, j.y_capture as int),
                        j.x_end as int,
                        j.y_end as int,
                        color,
                    ),
                );
                assert(chains_view(result@) == pre + branch);
                assert(spec_queen_chains_list(bi, slist, i as int, color) == branch
                    + spec_queen_chains_list(bi, slist, i + 1, color));
                assert((pre + branch) + spec_queen_chains_list(bi, slist, i + 1, color) =~= pre + (
                branch + spec_queen_chains_list(bi, slist, i + 1, color)));
            }
            i = i + 1;
        }
        proof {
            assert(spec_queen_chains_list(bi, slist, spots@.len() as int, color) =~= Seq::<
                Seq<Jump>,
            >::empty());
            assert(chains_view(result@) + Seq::<Seq<Jump>>::empty() =~= chains_view(result@));
        }
        result
    }

    fn get_moving_piece(board: &Board, x: usize, y: usize) -> (r: u8)
        requires
            playable(x as int, y as int),
        ensures
            r == spec_code_at(*board, x as int, y as int),
            legal_cell_value(r),
    {
        match board.piece_at(x, y) {
            Some(p) => p.board_u8_representation(),
            None => 0,
        }
    }

    /// Runs a capture chain: empties the chain's start square and every
    /// captured square, then puts the moving piece, its code unchanged, on
    /// the last jump's landing square.
    pub fn execute_capture(board: &Board, capture: &Vec<Jump>) -> (r: Board)
        requires
            capture@.len() >= 1,
            playable(capture@[0].x_start as int, capture@[0].y_start as int),
            board.spec_piece(capture@[0].x_start as int, capture@[0].y_start as int) is Some,
        ensures
            r == spec_execute_capture(*board, capture@),
    {
        let ghost b0 = *board;
        let mut ret = board.clone();
        let first = capture[0];
        let last = capture[capture.len() - 1];
        let moving_piece = Self::get_moving_piece(&ret, first.x_start, first.y_start);
        let _ = ret.set_at(first.x_start, first.y_start, 0);
        let ghost b1 = spec_set_or_same(b0, first.x_start as int, first.y_start as int, 0);
        proof {
            assert(ret == b1);
        }
        let mut i: usize = 0;
        while i < capture.len()
            invariant
                i <= capture@.len(),
                b1 == spec_set_or_same(
                    b0,
                    capture@[0].x_start as int,
                    capture@[0].y_start as int,
                    0,
                ),
                spec_remove_captures(b1, capture@, 0) == spec_remove_captures(
                    ret,
                    capture@,
                    i as int,
                ),
            decreases capture@.len() - i,
        {
            let jump = capture[i];
            let ghost before = ret;
            let _ = ret.set_at(jump.x_capture, jump.y_capture, 0);
            proof {
                assert(ret == spec_set_or_same(
                    before,
                    jump.x_capture as int,
                    jump.y_capture as int,
                    0,
                ));
            }
            i = i + 1;
        }
        let _ = ret.set_at(last.x_end, last.y_end, moving_piece);
        ret
    }

    /// Runs a simple move: empties the start square and writes the moving
    /// piece's code to the end square.
    pub fn execute_move(board: Board, one_move: SimpleMove) -> (r: Board)
        requires
            playable(one_move.x_start as int, one_move.y_start as int),
            board.spec_piece(one_move.x_start as int, one_move.y_start as int) is Some,
        ensures
            r == spec_execute_move(board, one_move),
    {
        let mut ret = board.clone();
        let moving_piece = Self::get_moving_piece(&ret, one_move.x_start, one_move.y_start);
        let _ = ret.set_at(one_move.x_start, one_move.y_start, 0);
        let _ = ret.set_at(one_move.x_end, one_move.y_end, moving_piece);
        ret
    }

    /// Promotes every white piece on row 0 and every black piece on row 7
    /// to the queen of its color; every other square, and every excluded
    /// marker, keeps its contents.
    pub fn promote_to_queen(board: &Board) -> (r: Board)
        ensures
            forall|x: int, y: int|
                playable(x, y) ==> #[trigger] r.spec_cell(x, y) == spec_promoted_cell(*board, x, y),
            forall|x: int, y: int|
                playable(x, y) ==> #[trigger] r.spec_excluded(x, y) == board.spec_excluded(x, y),
    {
        let ghost b0 = *board;
        let mut board_copy = board.clone();
        let mut i: usize = 0;
        while i < 8
            invariant
                i <= 8,
                b0 == *board,
                forall|x: int, y: int|
                    playable(x, y) && (x == 0 || x == 7) && y < i
                        ==> #[trigger] board_copy.spec_cell(x, y) == spec_promoted_cell(b0, x, y),
                forall|x: int, y: int|
                    playable(x, y) && !((x == 0 || x == 7) && y < i)
                        ==> #[trigger] board_copy.spec_cell(x, y) == b0.spec_cell(x, y),
                forall|x: int, y: int|
                    playable(x, y) ==> #[trigger] board_copy.spec_excluded(x, y)
                        == b0.spec_excluded(x, y),
            decreases 8 - i,
        {
            let ghost prev = board_copy;
            match board.get_at(0, i) {
                Ok(Some(piece)) => {
                    if piece.color() == CheckersColor::White {
                        let _ = board_copy.set_at(0, i, 0b0101);
                    }
                },
                _ => {},
            }
            proof {
                assert forall|x: int, y: int| playable(x, y) implies #[trigger] board_copy.spec_cell(
                    x,
                    y,
                ) == (if x == 0 && y == i && (b0.spec_piece(0, i as int) matches Some(p)
                    && p.spec_color() == CheckersColor::White) {
                    5u8
                } else {
                    prev.spec_cell(x, y)
                }) && board_copy.spec_excluded(x, y) == prev.spec_excluded(x, y) by {
                    if board_copy != prev {
                        assert(board_copy == prev.spec_set_cell(0, i as int, 5));
                        crate::board::lemma_set_cell(prev, 0, i as int, 5, x, y);
                    }
                }
            }
            let ghost mid = board_copy;
            match board.get_at(7, i) {
                Ok(Some(piece)) => {
                    if piece.color() == CheckersColor::Black {
                        let _ = board_copy.set_at(7, i, 0b0111);
                    }
                },
                _ => {},
            }
            proof {
                assert forall|x: int, y: int| playable(x, y) implies #[trigger] board_copy.spec_cell(
                    x,
                    y,
                ) == (if x == 7 && y == i && (b0.spec_piece(7, i as int) matches Some(p)
                    && p.spec_color() == CheckersColor::Black) {
                    7u8
                } else {
                    mid.spec_cell(x, y)
                }) && board_copy.spec_excluded(x, y) == mid.spec_excluded(x, y) by {
                    if board_copy != mid {
                        assert(board_copy == mid.spec_set_cell(7, i as int, 7));
                        crate::board::lemma_set_cell(mid, 7, i as int, 7, x, y);
                    }
                }
                assert forall|x: int, y: int| playable(x, y) implies #[trigger] board_copy.spec_excluded(
                    x,
                    y,
                ) == b0.spec_excluded(x, y) by {
                    let c1 = board_copy.spec_cell(x, y);
                    let c2 = mid.spec_cell(x, y);
                    let c3 = prev.spec_cell(x, y);
                }
            }
            i = i + 1;
        }
        board_copy
    }

    /// Whether the given color has lost: it has no pieces, or it has
    /// pieces but no legal capture and no legal move.
    pub fn has_game_ended(board: Board, color: CheckersColor) -> (r: bool)
        ensures
            r == spec_game_ended(board, color),
    {
        if board.pieces_count(color) == 0 {
            return true;
        }
        let pieces = Self::get_pieces(&board, color);
        proof {
            lemma_pieces_from_props(board, color, 0);
        }
        let (pawn_captures, queen_captures) = Self::get_capturing_pieces(
            &board,
            pieces.as_slice(),
            color,
        );
        if !pawn_captures.is_empty() || !queen_captures.is_empty() {
            return false;
        }
        let (pawn_moves, queen_moves) = Self::get_moving_pieces(&board, pieces.as_slice(), color);
        if !pawn_moves.is_empty() || !queen_moves.is_empty() {
            return false;
        }
        true
    }

    /// Pools the pawn chains and the queen chains and keeps, in order,
    /// exactly those of the greatest length over the whole pool; both
    /// input lists are drained.
    pub fn get_longest_captures<'a>(
        capturing_pieces: &mut Vec<&'a Vec<Jump>>,
        capturing_queens: &mut Vec<&'a Vec<Jump>>,
    ) -> (r: Vec<&'a Vec<Jump>>)
        ensures
            final(capturing_pieces)@.len() == 0,
            final(capturing_queens)@.len() == 0,
            ref_chains_view(r@) == (if old(capturing_pieces)@.len() + old(capturing_queens)@.len()
                == 0 {
                Seq::<Seq<Jump>>::empty()
            } else {
                keep_len(
                    ref_chains_view(old(capturing_pieces)@ + old(capturing_queens)@),
                    max_len_from(ref_chains_view(old(capturing_pieces)@ + old(capturing_queens)@), 0),
                    0,
                )
            }),
    {
        let ghost pv = capturing_pieces@;
        let ghost qv = capturing_queens@;
        let mut all_captures: Vec<&'a Vec<Jump>> = Vec::new();
        all_captures.append(capturing_pieces);
        all_captures.append(capturing_queens);
        proof {
            assert(all_captures@ == pv + qv);
        }
        let ghost all = ref_chains_view(all_captures@);
        if all_captures.is_empty() {
            let r: Vec<&'a Vec<Jump>> = Vec::new();
            proof {
                assert(ref_chains_view(r@) =~= Seq::<Seq<Jump>>::empty());
            }
            return r;
        }
        let mut max_len: usize = 0;
        let mut k = all_captures.len();
        while k > 0
            invariant
                k <= all_captures@.len(),
                all == ref_chains_view(all_captures@),
                max_len == max_len_from(all, k as int),
            decreases k,
        {
            k = k - 1;
            if all_captures[k].len() > max_len {
                max_len = all_captures[k].len();
            }
            proof {
                assert(all[k as int] == all_captures@[k as int]@);
            }
        }
        let mut max_path: Vec<&'a Vec<Jump>> = Vec::new();
        let ghost kept = keep_len(all, max_len as nat, 0);
        proof {
            assert(ref_chains_view(max_path@) + kept =~= kept);
        }
        let mut j: usize = 0;
        while j < all_captures.len()
            invariant
                j <= all_captures@.len(),
                all == ref_chains_view(all_captures@),
                max_len == max_len_from(all, 0),
                kept == keep_len(all, max_len as nat, 0),
                ref_chains_view(max_path@) + keep_len(all, max_len as nat, j as int) == kept,
            decreases all_captures@.len() - j,
        {
            proof {
                assert(all[j as int] == all_captures@[j as int]@);
            }
            if all_captures[j].len() == max_len {
                let cap = all_captures[j];
                let ghost before = ref_chains_view(max_path@);
                max_path.push(cap);
                proof {
                    assert(ref_chains_view(max_path@) =~= before.push(cap@));
                    assert(ref_chains_view(max_path@) + keep_len(all, max_len as nat, j + 1)
                        =~= before + keep_len(all, max_len as nat, j as int));
                }
            } else {
                proof {
                    assert(ref_chains_view(max_path@) + keep_len(all, max_len as nat, j + 1)
                        =~= ref_chains_view(max_path@) + keep_len(all, max_len as nat, j as int));
                }
            }
            j = j + 1;
        }
        proof {
            assert(ref_chains_view(max_path@) + keep_len(
                all,
                max_len as nat,
                all_captures@.len() as int,
            ) =~= ref_chains_view(max_path@));
        }
        max_path
    }

    fn pawn_move_path(board: &Board, x: usize, y: usize, color: CheckersColor) -> (r: Vec<
        SimpleMove,
    >)
        requires
            playable(x as int, y as int),
        ensures
            r@ == spec_pawn_move_list(*board, x as int, y as int, color),
    {
        let mut moves: Vec<SimpleMove> = Vec::new();
        match color {
            CheckersColor::White => {
                if Self::is_move_possible(board, x, y, -1, -1) {
                    moves.push(SimpleMove { x_start: x, y_start: y, x_end: x - 1, y_end: y - 1 });
                }
                if Self::is_move_possible(board, x, y, -1, 1) {
                    moves.push(SimpleMove { x_start: x, y_start: y, x_end: x - 1, y_end: y + 1 });
                }
            },
            CheckersColor::Black => {
                if Self::is_move_possible(board, x, y, 1, 1) {
                    moves.push(SimpleMove { x_start: x, y_start: y, x_end: x + 1, y_end: y + 1 });
                }
                if Self::is_move_possible(board, x, y, 1, -1) {
                    moves.push(SimpleMove { x_start: x, y_start: y, x_end: x + 1, y_end: y - 1 });
                }
            },
        }
        proof {
            assert(moves@ =~= spec_pawn_move_list(*board, x as int, y as int, color));
        }
        moves
    }

    /// The legal steps of the given pawns, pooled in order.
    pub fn get_possible_pawn_moves(
        board: &Board,
        moving_pawns: &[(usize, usize)],
        color: CheckersColor,
    ) -> (r: Vec<SimpleMove>)
        requires
            forall|t: int|
                0 <= t < moving_pawns@.len() ==> playable(
                    (#[trigger] moving_pawns@[t]).0 as int,
                    moving_pawns@[t].1 as int,
                ),
        ensures
            r@ == pawn_moves_concat(*board, moving_pawns@, 0, color),
    {
        let b_snap = *board;
        let ghost total = pawn_moves_concat(b_snap, moving_pawns@, 0, color);
        let mut moves: Vec<SimpleMove> = Vec::new();
        proof {
            assert(moves@ + total =~= total);
        }
        let mut i: usize = 0;
        while i < moving_pawns.len()
            invariant
                i <= moving_pawns@.len(),
                b_snap == *board,
                forall|t: int|
                    0 <= t < moving_pawns@.len() ==> playable(
                        (#[trigger] moving_pawns@[t]).0 as int,
                        moving_pawns@[t].1 as int,
                    ),
                total == pawn_moves_concat(b_snap, moving_pawns@, 0, color),
                moves@ + pawn_moves_concat(b_snap, moving_pawns@, i as int, color) == total,
            decreases moving_pawns@.len() - i,
        {
            let (x, y) = moving_pawns[i];
            let mut path = Self::pawn_move_path(board, x, y, color);
            let ghost pre = moves@;
            let ghost pathv = path@;
            moves.append(&mut path);
            proof {
                assert((pre + pathv) + pawn_moves_concat(b_snap, moving_pawns@, i + 1, color)
                    =~= pre + (pathv + pawn_moves_concat(b_snap, moving_pawns@, i + 1, color)));
            }
            i = i + 1;
        }
        proof {
            assert(moves@ + pawn_moves_concat(
                b_snap,
                moving_pawns@,
                moving_pawns@.len() as int,
                color,
            ) =~= moves@);
        }
        moves
    }

    fn queen_dir_moves(
        board: &Board,
        x: usize,
        y: usize,
        dx: i32,
        dy: i32,
        result: &mut Vec<SimpleMove>,
    )
        requires
            playable(x as int, y as int),
            dx == 1 || dx == -1,
            dy == 1 || dy == -1,
        ensures
            final(result)@ == old(result)@ + dir_moves(
                *board,
                x as int,
                y as int,
                dx as int,
                dy as int,
            ),
    {
        let ghost bi = *board;
        let ghost xi = x as int;
        let ghost yi = y as int;
        let ghost dxi = dx as int;
        let ghost dyi = dy as int;
        let ghost pre = result@;
        let diag = Self::diagonal(x, y, dx, dy);
        let n = diag.len();
        let mut k: usize = 0;
        let mut stop = false;
        while k < n && !stop
            invariant
                playable(xi, yi),
                dxi == 1 || dxi == -1,
                dyi == 1 || dyi == -1,
                xi == x as int && yi == y as int && dxi == dx as int && dyi == dy as int && bi
                    == *board,
                n == diag@.len(),
                diag@.len() == diag_len(xi, yi, dxi, dyi),
                forall|t: int|
                    0 <= t < diag@.len() ==> (#[trigger] diag@[t]).0 as int == diag_at(
                        xi,
                        yi,
                        dxi,
                        dyi,
                        t,
                    ).0 && diag@[t].1 as int == diag_at(xi, yi, dxi, dyi, t).1,
                k <= n,
                forall|t: int|
                    0 <= t < k ==> !spec_nonempty(
                        bi,
                        diag_at(xi, yi, dxi, dyi, t).0,
                        diag_at(xi, yi, dxi, dyi, t).1,
                    ),
                stop ==> k < n && spec_nonempty(
                    bi,
                    diag_at(xi, yi, dxi, dyi, k as int).0,
                    diag_at(xi, yi, dxi, dyi, k as int).1,
                ),
                result@ == pre + Seq::new(
                    k as nat,
                    |t: int| mk_move(xi, yi, diag_at(xi, yi, dxi, dyi, t).0, diag_at(xi, yi, dxi, dyi, t).1),
                ),
            decreases n - k + (if stop {
                0int
            } else {
                1int
            }),
        {
            proof {
                lemma_diag_playable(xi, yi, dxi, dyi, k as int);
            }
            let (cx, cy) = diag[k];
            match board.piece_at(cx, cy) {
                Some(_) => {
                    stop = true;
                },
                None => {
                    result.push(SimpleMove { x_start: x, y_start: y, x_end: cx, y_end: cy });
                    proof {
                        assert(result@ =~= pre + Seq::new(
                            (k + 1) as nat,
                            |t: int| mk_move(xi, yi, diag_at(xi, yi, dxi, dyi, t).0, diag_at(xi, yi, dxi, dyi, t).1),
                        ));
                    }
                    k = k + 1;
                },
            }
        }
        proof {
            if stop {
                lemma_first_occ_char(bi, xi, yi, dxi, dyi, k as int);
            } else {
                lemma_first_occ_char(bi, xi, yi, dxi, dyi, n as int);
            }
            assert(result@ =~= pre + dir_moves(bi, xi, yi, dxi, dyi));
        }
    }

    fn queen_move_path(board: &Board, x: usize, y: usize) -> (r: Vec<SimpleMove>)
        requires
            playable(x as int, y as int),
        ensures
            r@ == spec_queen_move_list(*board, x as int, y as int),
    {
        let mut r: Vec<SimpleMove> = Vec::new();
        Self::queen_dir_moves(board, x, y, 1, 1, &mut r);
        Self::queen_dir_moves(board, x, y, 1, -1, &mut r);
        Self::queen_dir_moves(board, x, y, -1, 1, &mut r);
        Self::queen_dir_moves(board, x, y, -1, -1, &mut r);
        proof {
            let b = *board;
            let xi = x as int;
            let yi = y as int;
            let s1 = dir_moves(b, xi, yi, 1, 1);
            let s2 = dir_moves(b, xi, yi, 1, -1);
            let s3 = dir_moves(b, xi, yi, -1, 1);
            let s4 = dir_moves(b, xi, yi, -1, -1);
            assert(Seq::<SimpleMove>::empty() + s1 =~= s1);
            assert(r@ == ((s1 + s2) + s3) + s4);
        }
        r
    }

    /// The legal steps of the given queens, pooled in order.
    pub fn get_possible_queen_moves(board: &Board, moving_queens: &[(usize, usize)]) -> (r: Vec<
        SimpleMove,
    >)
        requires
            forall|t: int|
                0 <= t < moving_queens@.len() ==> playable(
                    (#[trigger] moving_queens@[t]).0 as int,
                    moving_queens@[t].1 as int,
                ),
        ensures
            r@ == queen_moves_concat(*board, moving_queens@, 0),
    {
        let b_snap = *board;
        let ghost total = queen_moves_concat(b_snap, moving_queens@, 0);
        let mut moves: Vec<SimpleMove> = Vec::new();
        proof {
            assert(moves@ + total =~= total);
        }
        let mut i: usize = 0;
        while i < moving_queens.len()
            invariant
                i <= moving_queens@.len(),
                b_snap == *board,
                forall|t: int|
                    0 <= t < moving_queens@.len() ==> playable(
                        (#[trigger] moving_queens@[t]).0 as int,
                        moving_queens@[t].1 as int,
                    ),
                total == queen_moves_concat(b_snap, moving_queens@, 0),
                moves@ + queen_moves_concat(b_snap, moving_queens@, i as int) == total,
            decreases moving_queens@.len() - i,
        {
            let (x, y) = moving_queens[i];
            let mut path = Self::queen_move_path(board, x, y);
            let ghost pre = moves@;
            let ghost pathv = path@;
            moves.append(&mut path);
            proof {
                assert((pre + pathv) + queen_moves_concat(b_snap, moving_queens@, i + 1) =~= pre + (
                pathv + queen_moves_concat(b_snap, moving_queens@, i + 1)));
            }
            i = i + 1;
        }
        proof {
            assert(moves@ + queen_moves_concat(b_snap, moving_queens@, moving_queens@.len() as int)
                =~= moves@);
        }
        moves
    }

    /// Every legal non-capturing move of the given color this turn: the
    /// moving pawns' steps followed by the moving queens' steps.
    pub fn get_all_moves(board: &Board, color: CheckersColor) -> (r: Vec<SimpleMove>)
        ensures
            r@ == spec_all_moves(*board, color),
    {
        let pieces = Self::get_pieces(board, color);
        proof {
            lemma_pieces_from_props(*board, color, 0);
            lemma_filter_playable(*board, pieces@, 0, color);
        }
        let (moving_pawns, moving_queens) = Self::get_moving_pieces(
            board,
            pieces.as_slice(),
            color,
        );
        let mut pawn_moves = Self::get_possible_pawn_moves(board, moving_pawns.as_slice(), color);
        let mut queen_moves = Self::get_possible_queen_moves(board, moving_queens.as_slice());
        let ghost pv = pawn_moves@;
        let ghost qv = queen_moves@;
        let mut all_moves: Vec<SimpleMove> = Vec::new();
        all_moves.append(&mut pawn_moves);
        all_moves.append(&mut queen_moves);
        proof {
            assert(all_moves@ =~= pv + qv);
        }
        all_moves
    }

    fn copy_chain(c: &Vec<Jump>) -> (r: Vec<Jump>)
        ensures
            r@ == c@,
    {
        let mut r: Vec<Jump> = Vec::new();
        let mut i: usize = 0;
        while i < c.len()
            invariant
                i <= c@.len(),
                r@ == c@.subrange(0, i as int),
            decreases c@.len() - i,
        {
            r.push(c[i]);
            proof {
                assert(r@ =~= c@.subrange(0, i + 1));
            }
            i = i + 1;
        }
        proof {
            assert(c@.subrange(0, c@.len() as int) =~= c@);
        }
        r
    }

    /// Keeps, in order, exactly the chains of greatest length; an empty
    /// list stays empty.
    #[verifier::rlimit(100)]
    fn keep_longest_paths(paths: Vec<Vec<Jump>>) -> (r: Vec<Vec<Jump>>)
        ensures
            chains_view(r@) == (if chains_view(paths@).len() == 0 {
                chains_view(paths@)
            } else {
                keep_len(chains_view(paths@), max_len_from(chains_view(paths@), 0), 0)
            }),
    {
        let ghost all = chains_view(paths@);
        if paths.is_empty() {
            return paths;
        }
        let mut m: usize = 0;
        let mut k = paths.len();
        while k > 0
            invariant
                k <= paths@.len(),
                all == chains_view(paths@),
                m == max_len_from(all, k as int),
            decreases k,
        {
            k = k - 1;
            if paths[k].len() > m {
                m = paths[k].len();
            }
            proof {
                assert(all[k as int] == paths@[k as int]@);
            }
        }
        let mut ret: Vec<Vec<Jump>> = Vec::new();
        let ghost kept = keep_len(all, m as nat, 0);
        proof {
            assert(chains_view(ret@) + kept =~= kept);
        }
        let mut j: usize = 0;
        while j < paths.len()
            invariant
                j <= paths@.len(),
                all == chains_view(paths@),
                m == max_len_from(all, 0),
                kept == keep_len(all, m as nat, 0),
                chains_view(ret@) + keep_len(all, m as nat, j as int) == kept,
            decreases paths@.len() - j,
        {
            proof {
                assert(all[j as int] == paths@[j as int]@);
            }
            if paths[j].len() == m {
                let chain = Self::copy_chain(&paths[j]);
                let ghost before = chains_view(ret@);
                ret.push(chain);
                proof {
                    assert(chains_view(ret@) =~= before.push(chain@));
                    assert(chains_view(ret@) + keep_len(all, m as nat, j + 1) =~= before + keep_len(
                        all,
                        m as nat,
                        j as int,
                    ));
                }
            } else {
                proof {
                    assert(chains_view(ret@) + keep_len(all, m as nat, j + 1) =~= chains_view(ret@)
                        + keep_len(all, m as nat, j as int));
                }
            }
            j = j + 1;
        }
        proof {
            assert(chains_view(ret@) + keep_len(all, m as nat, paths@.len() as int) =~= chains_view(
                ret@,
            ));
        }
        ret
    }

    /// The capture chains of the given pawns, pooled in order and filtered
    /// to those of the greatest length.
    pub fn get_possible_pawn_captures(
        board: &Board,
        capturing_pawns: &[(usize, usize)],
        color: CheckersColor,
    ) -> (r: Vec<Vec<Jump>>)
        requires
            forall|t: int|
                0 <= t < capturing_pawns@.len() ==> playable(
                    (#[trigger] capturing_pawns@[t]).0 as int,
                    capturing_pawns@[t].1 as int,
                ),
        ensures
            chains_view(r@) == spec_pawn_captures(*board, capturing_pawns@, color),
    {
        let b_snap = *board;
        let ghost total = pawn_chains_concat(b_snap, capturing_pawns@, 0, color);
        let mut paths: Vec<Vec<Jump>> = Vec::new();
        proof {
            assert(chains_view(paths@) + total =~= total);
        }
        let mut i: usize = 0;
        while i < capturing_pawns.len()
            invariant
                i <= capturing_pawns@.len(),
                b_snap == *board,
                forall|t: int|
                    0 <= t < capturing_pawns@.len() ==> playable(
                        (#[trigger] capturing_pawns@[t]).0 as int,
                        capturing_pawns@[t].1 as int,
                    ),
                total == pawn_chains_concat(b_snap, capturing_pawns@, 0, color),
                chains_view(paths@) + pawn_chains_concat(b_snap, capturing_pawns@, i as int, color)
                    == total,
            decreases capturing_pawns@.len() - i,
        {
            let (x, y) = capturing_pawns[i];
            let mut sub = Self::pawn_capture_paths(board, x, y, color);
            let ghost pre = chains_view(paths@);
            let ghost subv = chains_view(sub@);
            paths.append(&mut sub);
            proof {
                assert(chains_view(paths@) =~= pre + subv);
                assert((pre + subv) + pawn_chains_concat(b_snap, capturing_pawns@, i + 1, color)
                    =~= pre + (subv + pawn_chains_concat(b_snap, capturing_pawns@, i + 1, color)));
            }
            i = i + 1;
        }
        proof {
            assert(chains_view(paths@) + pawn_chains_concat(
                b_snap,
                capturing_pawns@,
                capturing_pawns@.len() as int,
                color,
            ) =~= chains_view(paths@));
        }
        Self::keep_longest_paths(paths)
    }

    /// The capture chains of the given queens, pooled in order and
    /// filtered to those of the greatest length.
    pub fn get_possible_queen_captures(
        board: &Board,
        capturing_queens: &[(usize, usize)],
        color: CheckersColor,
    ) -> (r: Vec<Vec<Jump>>)
        requires
            forall|t: int|
                0 <= t < capturing_queens@.len() ==> playable(
                    (#[trigger] capturing_queens@[t]).0 as int,
                    capturing_queens@[t].1 as int,
                ),
        ensures
            chains_view(r@) == spec_queen_captures(*board, capturing_queens@, color),
    {
        let b_snap = *board;
        let ghost total = queen_chains_concat(b_snap, capturing_queens@, 0, color);
        let mut paths: Vec<Vec<Jump>> = Vec::new();
        proof {
            assert(chains_view(paths@) + total =~= total);
        }
        let mut i: usize = 0;
        while i < capturing_queens.len()
            invariant
                i <= capturing_queens@.len(),
                b_snap == *board,
                forall|t: int|
                    0 <= t < capturing_queens@.len() ==> playable(
                        (#[trigger] capturing_queens@[t]).0 as int,
                        capturing_queens@[t].1 as int,
                    ),
                total == queen_chains_concat(b_snap, capturing_queens@, 0, color),
                chains_view(paths@) + queen_chains_concat(
                    b_snap,
                    capturing_queens@,
                    i as int,
                    color,
                ) == total,
            decreases capturing_queens@.len() - i,
        {
            let (x, y) = capturing_queens[i];
            let mut sub = Self::queen_capture_paths(board, x, y, color);
            let ghost pre = chains_view(paths@);
            let ghost subv = chains_view(sub@);
            paths.append(&mut sub);
            proof {
                assert(chains_view(paths@) =~= pre + subv);
                assert((pre + subv) + queen_chains_concat(b_snap, capturing_queens@, i + 1, color)
                    =~= pre + (subv + queen_chains_concat(b_snap, capturing_queens@, i + 1, color)));
            }
            i = i + 1;
        }
        proof {
            assert(chains_view(paths@) + queen_chains_concat(
                b_snap,
                capturing_queens@,
                capturing_queens@.len() as int,
                color,
            ) =~= chains_view(paths@));
        }
        Self::keep_longest_paths(paths)
    }

    /// Every legal capture chain of the given color this turn: the
    /// capturing pawns' longest chains followed by the capturing queens'
    /// longest chains.
    pub fn get_all_captures(board: &Board, color: CheckersColor) -> (r: Vec<Vec<Jump>>)
        ensures
            chains_view(r@) == spec_all_captures(*board, color),
    {
        let pieces = Self::get_pieces(board, color);
        proof {
            lemma_pieces_from_props(*board, color, 0);
            lemma_filter_playable(*board, pieces@, 0, color);
        }
        let (capturing_pawns, capturing_queens) = Self::get_capturing_pieces(
            board,
            pieces.as_slice(),
            color,
        );
        let mut pawn_captures = Self::get_possible_pawn_captures(
            board,
            capturing_pawns.as_slice(),
            color,
        );
        let mut queen_captures = Self::get_possible_queen_captures(
            board,
            capturing_queens.as_slice(),
            color,
        );
        let ghost pv = chains_view(pawn_captures@);
        let ghost qv = chains_view(queen_captures@);
        let mut all_captures: Vec<Vec<Jump>> = Vec::new();
        all_captures.append(&mut pawn_captures);
        all_captures.append(&mut queen_captures);
        proof {
            assert(chains_view(all_captures@) =~= pv + qv);
        }
        all_captures
    }
}

} // verus!
