//! The rules the library answers for, stated once and proved.
use vstd::prelude::*;

use crate::board::{
    count_color_from, legal_cell_value, playable, spec_new_cell, spec_pieces_count, Board,
};
use crate::checkers_utils::{
    filter_capturing_pawns, filter_capturing_queens, filter_moving_pawns, filter_moving_queens,
    keep_len, max_len_from, spec_all_captures, spec_all_moves, spec_game_ended, spec_get_pieces,
    spec_pieces_from, CheckersError,
};
use crate::moves::Jump;
use crate::pieces::{spec_decode, CheckersColor};

verus! {

broadcast use crate::board::group_board_cells;

/// Writing a legal cell value to a playable square and reading it back
/// yields the piece that value decodes to; the write succeeds, disturbs
/// no other square, and leaves every excluded marker alone.
pub proof fn lemma_set_get_round_trip(b: Board, x: int, y: int, v: u8)
    requires
        playable(x, y),
        legal_cell_value(v),
    ensures
        Board::spec_set_result(x, y, v) == Ok::<(), CheckersError>(()),
        b.spec_set_cell(x, y, v).spec_get(x, y) == Ok::<
            Option<crate::pieces::Piece>,
            CheckersError,
        >(spec_decode(v)),
        forall|i: int, j: int|
            playable(i, j) && !(i == x && j == y) ==> #[trigger] b.spec_set_cell(x, y, v).spec_cell(
                i,
                j,
            ) == b.spec_cell(i, j),
        forall|i: int, j: int|
            playable(i, j) ==> #[trigger] b.spec_set_cell(x, y, v).spec_excluded(i, j)
                == b.spec_excluded(i, j),
{
    assert forall|i: int, j: int| playable(i, j) implies #[trigger] b.spec_set_cell(
        x,
        y,
        v,
    ).spec_excluded(i, j) == b.spec_excluded(i, j) && (!(i == x && j == y) ==> b.spec_set_cell(
        x,
        y,
        v,
    ).spec_cell(i, j) == b.spec_cell(i, j)) by {
        crate::board::lemma_set_cell(b, x, y, v, i, j);
    }
    crate::board::lemma_set_cell(b, x, y, v, x, y);
}

/// Every accessor turns a light (even-sum) square away with the rule
/// error, whatever the board holds.
pub proof fn lemma_parity_rejected(b: Board, x: int, y: int, v: u8)
    requires
        0 <= x < 8,
        0 <= y < 8,
        (x + y) % 2 == 0,
    ensures
        b.spec_get(x, y) == Err::<Option<crate::pieces::Piece>, CheckersError>(
            CheckersError::RuleError,
        ),
        Board::spec_set_result(x, y, v) == Err::<(), CheckersError>(CheckersError::RuleError),
        b.spec_excluded_result(x, y) == Err::<bool, CheckersError>(CheckersError::RuleError),
{
}

/// Every accessor turns a coordinate beyond the board away with the
/// bounds error, whatever the board holds.
pub proof fn lemma_bounds_rejected(b: Board, x: int, y: int, v: u8)
    requires
        x > 7 || y > 7,
        x >= 0 && y >= 0,
    ensures
        b.spec_get(x, y) == Err::<Option<crate::pieces::Piece>, CheckersError>(
            CheckersError::IndexOutOfBounds,
        ),
        Board::spec_set_result(x, y, v) == Err::<(), CheckersError>(
            CheckersError::IndexOutOfBounds,
        ),
        b.spec_excluded_result(x, y) == Err::<bool, CheckersError>(CheckersError::IndexOutOfBounds),
{
}

/// A fresh board with `rows` pawn ranks per side carries exactly 4 * rows
/// pawns of each color.
pub proof fn lemma_new_board_counts(b: Board, rows: int)
    requires
        1 <= rows <= 3,
        forall|x: int, y: int|
            playable(x, y) ==> #[trigger] b.spec_cell(x, y) == spec_new_cell(x, rows),
    ensures
        spec_pieces_count(b, CheckersColor::White) == 4 * rows,
        spec_pieces_count(b, CheckersColor::Black) == 4 * rows,
{
    if rows == 1 {
        lemma_layout_count_one(b, rows);
    } else if rows == 2 {
        lemma_layout_count_two(b, rows);
    } else {
        lemma_layout_count_three(b, rows);
    }
}

#[verifier::rlimit(100)]
proof fn lemma_layout_count_one(b: Board, rows: int)
    requires
        rows == 1,
        forall|x: int, y: int|
            playable(x, y) ==> #[trigger] b.spec_cell(x, y) == spec_new_cell(x, rows),
    ensures
        spec_pieces_count(b, CheckersColor::White) == 4,
        spec_pieces_count(b, CheckersColor::Black) == 4,
{
    reveal_with_fuel(crate::board::count_color_from, 65);
}

#[verifier::rlimit(100)]
proof fn lemma_layout_count_two(b: Board, rows: int)
    requires
        rows == 2,
        forall|x: int, y: int|
            playable(x, y) ==> #[trigger] b.spec_cell(x, y) == spec_new_cell(x, rows),
    ensures
        spec_pieces_count(b, CheckersColor::White) == 8,
        spec_pieces_count(b, CheckersColor::Black) == 8,
{
    reveal_with_fuel(crate::board::count_color_from, 65);
}

#[verifier::rlimit(100)]
proof fn lemma_layout_count_three(b: Board, rows: int)
    requires
        rows == 3,
        forall|x: int, y: int|
            playable(x, y) ==> #[trigger] b.spec_cell(x, y) == spec_new_cell(x, rows),
    ensures
        spec_pieces_count(b, CheckersColor::White) == 12,
        spec_pieces_count(b, CheckersColor::Black) == 12,
{
    reveal_with_fuel(crate::board::count_color_from, 65);
}

proof fn lemma_max_len_ge(s: Seq<Seq<Jump>>, i: int)
    requires
        0 <= i,
    ensures
        forall|k: int| i <= k < s.len() ==> (#[trigger] s[k]).len() <= max_len_from(s, i),
    decreases s.len() - i,
{
    if i < s.len() {
        lemma_max_len_ge(s, i + 1);
        assert(max_len_from(s, i) == (if s[i].len() >= max_len_from(s, i + 1) {
            s[i].len()
        } else {
            max_len_from(s, i + 1)
        }));
    }
}

proof fn lemma_max_len_achieved(s: Seq<Seq<Jump>>, i: int)
    requires
        0 <= i < s.len(),
    ensures
        exists|k: int| i <= k < s.len() && (#[trigger] s[k]).len() == max_len_from(s, i),
    decreases s.len() - i,
{
    if i + 1 < s.len() {
        lemma_max_len_achieved(s, i + 1);
        let m = max_len_from(s, i + 1);
        if s[i].len() >= m {
            assert(s[i].len() == max_len_from(s, i));
        } else {
            let k = choose|k: int| i + 1 <= k < s.len() && (#[trigger] s[k]).len() == m;
            assert(s[k].len() == max_len_from(s, i));
        }
    } else {
        assert(max_len_from(s, i + 1) == 0);
        assert(s[i].len() == max_len_from(s, i));
    }
}

proof fn lemma_keep_len_lens(s: Seq<Seq<Jump>>, m: nat, i: int)
    ensures
        forall|t: int|
            0 <= t < keep_len(s, m, i).len() ==> (#[trigger] keep_len(s, m, i)[t]).len() == m,
    decreases s.len() - i,
{
    if 0 <= i < s.len() {
        lemma_keep_len_lens(s, m, i + 1);
        let out = keep_len(s, m, i);
        let rest = keep_len(s, m, i + 1);
        assert forall|t: int| 0 <= t < out.len() implies (#[trigger] out[t]).len() == m by {
            if out.len() == rest.len() {
                assert(out[t] == rest[t]);
            } else if t == 0 {
                assert(out[t] == s[i]);
            } else {
                assert(out[t] == rest[t - 1]);
            }
        }
    }
}

proof fn lemma_keep_len_nonempty(s: Seq<Seq<Jump>>, m: nat, i: int, k: int)
    requires
        i <= k < s.len(),
        0 <= i,
        s[k].len() == m,
    ensures
        keep_len(s, m, i).len() >= 1,
    decreases s.len() - i,
{
    if i < k {
        lemma_keep_len_nonempty(s, m, i + 1, k);
    }
}

/// The mandatory longest-capture rule: whenever the side to move has any
/// capture chain at all, the pool of its legal options is nonempty and
/// holds exactly chains of the single greatest length available, pawn and
/// queen chains pooled together.
pub proof fn lemma_mandatory_longest_capture(b: Board, c: CheckersColor)
    requires
        spec_all_captures(b, c).len() > 0,
    ensures
        ({
            let all = spec_all_captures(b, c);
            let m = max_len_from(all, 0);
            let options = keep_len(all, m, 0);
            &&& options.len() >= 1
            &&& forall|t: int| 0 <= t < options.len() ==> (#[trigger] options[t]).len() == m
            &&& forall|k: int| 0 <= k < all.len() ==> (#[trigger] all[k]).len() <= m
        }),
{
    let all = spec_all_captures(b, c);
    let m = max_len_from(all, 0);
    lemma_max_len_ge(all, 0);
    lemma_max_len_achieved(all, 0);
    let k = choose|k: int| 0 <= k < all.len() && (#[trigger] all[k]).len() == m;
    lemma_keep_len_nonempty(all, m, 0, k);
    lemma_keep_len_lens(all, m, 0);
}


proof fn lemma_count_matches_pieces(b: Board, c: CheckersColor, pos: int)
    ensures
        count_color_from(b, c, pos) == spec_pieces_from(b, c, pos).len(),
    decreases 64 - pos,
{
    if 0 <= pos < 64 {
        lemma_count_matches_pieces(b, c, pos + 1);
    }
}

/// Endgame detection is faithful: a color reported as having lost truly
/// has no legal capture chain and no legal move this turn.
pub proof fn lemma_lost_color_has_no_options(b: Board, c: CheckersColor)
    requires
        spec_game_ended(b, c),
    ensures
        spec_all_captures(b, c).len() == 0,
        spec_all_moves(b, c).len() == 0,
{
    let pieces = spec_get_pieces(b, c);
    if spec_pieces_count(b, c) == 0 {
        lemma_count_matches_pieces(b, c, 0);
        assert(pieces.len() == 0);
    }
    assert(filter_capturing_pawns(b, pieces, 0, c).len() == 0);
    assert(filter_capturing_queens(b, pieces, 0, c).len() == 0);
    assert(filter_moving_pawns(b, pieces, 0, c).len() == 0);
    assert(filter_moving_queens(b, pieces, 0, c).len() == 0);
    assert(spec_all_captures(b, c).len() == 0);
    assert(spec_all_moves(b, c).len() == 0);
}

} // verus!
