//! Computer-controlled players: a random chooser and a minimax searcher.
use vstd::prelude::*;

use rand::Rng;

use crate::board::Board;
use crate::board_estimators::{clamp_i32, Estimator};
use crate::checkers_utils::{
    chain_runnable, lemma_all_captures_runnable, lemma_all_moves_runnable, move_runnable,
    ref_chains_view, spec_all_captures, spec_all_moves, spec_execute_capture, spec_execute_move,
    MoveExecutor,
};
use crate::moves::{Jump, SimpleMove};
use crate::pieces::CheckersColor;
use crate::statistics::NodeCounter;

verus! {

/// Relies on rand::Rng::gen_range over the range 0..n: a uniformly drawn
/// index below n. The call panics only on an empty range, which the
/// precondition rules out.
#[verifier::external_body]
fn random_below(n: usize) -> (r: usize)
    requires
        n >= 1,
    ensures
        r < n,
{
    let mut rng = rand::thread_rng();
    rng.gen_range(0..n)
}

/// A bot that picks uniformly at random among the offered options.
pub struct DummyBot {
    name: String,
    color: CheckersColor,
}

impl DummyBot {
    pub closed spec fn spec_name(self) -> Seq<char> {
        self.name@
    }

    pub closed spec fn spec_color(self) -> CheckersColor {
        self.color
    }

    pub fn new(name: &str, color: CheckersColor) -> (r: Self)
        ensures
            r.spec_name() == name@,
            r.spec_color() == color,
    {
        Self { name: String::from_str(name), color }
    }

    /// Picks one of the offered moves at random.
    pub fn move_piece(&self, possible_moves: &Vec<SimpleMove>, board: Board) -> (r: usize)
        requires
            possible_moves@.len() >= 1,
        ensures
            r < possible_moves@.len(),
    {
        random_below(possible_moves.len())
    }

    /// Picks one of the offered capture chains at random.
    pub fn capture(&self, possible_captures: &Vec<&Vec<Jump>>, board: Board) -> (r: usize)
        requires
            possible_captures@.len() >= 1,
        ensures
            r < possible_captures@.len(),
    {
        random_below(possible_captures.len())
    }

    pub fn get_name(&self) -> (r: &String)
        ensures
            r@ == self.spec_name(),
    {
        &self.name
    }

    pub fn set_color(&mut self, color: CheckersColor)
        ensures
            final(self).spec_color() == color,
            final(self).spec_name() == old(self).spec_name(),
    {
        self.color = color;
    }

    pub fn get_color(&self) -> (r: CheckersColor)
        ensures
            r == self.spec_color(),
    {
        self.color
    }
}

/// The minimax value of a position, `depth` plies deep, seen from
/// `root_color`: at depth 0 the static estimate; with captures on the
/// table, the best (or worst) value over exactly those children, captures
/// being mandatory; otherwise over the simple moves; with no move at all,
/// the endgame estimate shifted by the depth spent, so that faster wins
/// and slower losses score better.
pub open spec fn spec_minmax<E: Estimator>(
    est: &E,
    board: Board,
    depth: int,
    current_color: CheckersColor,
    maximising: bool,
    root_color: CheckersColor,
    total_depth: int,
) -> i32
    decreases depth, 2int, 0int,
        when depth >= 0
{
    if depth <= 0 {
        est.spec_estimate(board, root_color, false)
    } else {
        let caps = spec_all_captures(board, current_color);
        if caps.len() > 0 {
            spec_minmax_jumps(
                est,
                board,
                caps,
                0,
                depth,
                current_color,
                maximising,
                root_color,
                total_depth,
            )
        } else {
            let moves = spec_all_moves(board, current_color);
            if moves.len() > 0 {
                spec_minmax_moves(
                    est,
                    board,
                    moves,
                    0,
                    depth,
                    current_color,
                    maximising,
                    root_color,
                    total_depth,
                )
            } else {
                let e = est.spec_estimate(board, root_color, true);
                if maximising {
                    clamp_i32(e + total_depth - depth)
                } else {
                    clamp_i32(e - total_depth + depth)
                }
            }
        }
    }
}

/// The best (maximising) or worst (minimising) minimax value over the
/// children reached by the capture chains at indices `i..`.
pub open spec fn spec_minmax_jumps<E: Estimator>(
    est: &E,
    board: Board,
    chains: Seq<Seq<Jump>>,
    i: int,
    depth: int,
    current_color: CheckersColor,
    maximising: bool,
    root_color: CheckersColor,
    total_depth: int,
) -> i32
    decreases depth, 1int, chains.len() - i,
        when depth >= 1 && 0 <= i
{
    if i >= chains.len() {
        if maximising {
            i32::MIN
        } else {
            i32::MAX
        }
    } else {
        let child = spec_execute_capture(board, chains[i]);
        let e = spec_minmax(
            est,
            child,
            depth - 1,
            current_color.spec_opposite(),
            !maximising,
            root_color,
            total_depth,
        );
        let rest = spec_minmax_jumps(
            est,
            board,
            chains,
            i + 1,
            depth,
            current_color,
            maximising,
            root_color,
            total_depth,
        );
        if maximising {
            if e >= rest {
                e
            } else {
                rest
            }
        } else {
            if e <= rest {
                e
            } else {
                rest
            }
        }
    }
}

/// The best (maximising) or worst (minimising) minimax value over the
/// children reached by the simple moves at indices `i..`.
pub open spec fn spec_minmax_moves<E: Estimator>(
    est: &E,
    board: Board,
    moves: Seq<SimpleMove>,
    i: int,
    depth: int,
    current_color: CheckersColor,
    maximising: bool,
    root_color: CheckersColor,
    total_depth: int,
) -> i32
    decreases depth, 1int, moves.len() - i,
        when depth >= 1 && 0 <= i
{
    if i >= moves.len() {
        if maximising {
            i32::MIN
        } else {
            i32::MAX
        }
    } else {
        let child = spec_execute_move(board, moves[i]);
        let e = spec_minmax(
            est,
            child,
            depth - 1,
            current_color.spec_opposite(),
            !maximising,
            root_color,
            total_depth,
        );
        let rest = spec_minmax_moves(
            est,
            board,
            moves,
            i + 1,
            depth,
            current_color,
            maximising,
            root_color,
            total_depth,
        );
        if maximising {
            if e >= rest {
                e
            } else {
                rest
            }
        } else {
            if e <= rest {
                e
            } else {
                rest
            }
        }
    }
}

/// The value a bot of color `c` with total depth `total` gives a simple
/// move from this position.
pub open spec fn spec_move_eval<E: Estimator>(
    est: &E,
    board: Board,
    m: SimpleMove,
    c: CheckersColor,
    total: int,
) -> i32 {
    spec_minmax(est, spec_execute_move(board, m), total - 1, c.spec_opposite(), false, c, total)
}

/// The greatest such value over the moves at indices `i..`.
pub open spec fn spec_best_move_eval<E: Estimator>(
    est: &E,
    board: Board,
    moves: Seq<SimpleMove>,
    i: int,
    c: CheckersColor,
    total: int,
) -> i32
    decreases moves.len() - i,
{
    if i < 0 || i >= moves.len() {
        i32::MIN
    } else {
        let e = spec_move_eval(est, board, moves[i], c, total);
        let rest = spec_best_move_eval(est, board, moves, i + 1, c, total);
        if e >= rest {
            e
        } else {
            rest
        }
    }
}

/// The value a bot of color `c` with total depth `total` gives a capture
/// chain from this position.
pub open spec fn spec_cap_eval<E: Estimator>(
    est: &E,
    board: Board,
    ch: Seq<Jump>,
    c: CheckersColor,
    total: int,
) -> i32 {
    spec_minmax(est, spec_execute_capture(board, ch), total - 1, c.spec_opposite(), false, c, total)
}

/// The greatest such value over the chains at indices `i..`.
pub open spec fn spec_best_cap_eval<E: Estimator>(
    est: &E,
    board: Board,
    chains: Seq<Seq<Jump>>,
    i: int,
    c: CheckersColor,
    total: int,
) -> i32
    decreases chains.len() - i,
{
    if i < 0 || i >= chains.len() {
        i32::MIN
    } else {
        let e = spec_cap_eval(est, board, chains[i], c, total);
        let rest = spec_best_cap_eval(est, board, chains, i + 1, c, total);
        if e >= rest {
            e
        } else {
            rest
        }
    }
}

/// A bot that searches the game tree with plain minimax to a fixed depth
/// and picks uniformly at random among the moves whose evaluation ties
/// the best one found.
pub struct MinMaxBot<'a, E: Estimator> {
    name: String,
    depth: usize,
    estimator: &'a E,
    color: CheckersColor,
    node_counter: Option<NodeCounter>,
}

impl<'a, E: Estimator> MinMaxBot<'a, E> {
    pub closed spec fn spec_name(self) -> Seq<char> {
        self.name@
    }

    pub closed spec fn spec_depth(self) -> usize {
        self.depth
    }

    pub closed spec fn spec_color(self) -> CheckersColor {
        self.color
    }

    pub closed spec fn spec_estimator(self) -> &'a E {
        self.estimator
    }

    pub closed spec fn spec_node_counter(self) -> Option<NodeCounter> {
        self.node_counter
    }

    pub fn new(name: &str, color: CheckersColor, depth: usize, estimator: &'a E) -> (r: Self)
        ensures
            r.spec_name() == name@,
            r.spec_color() == color,
            r.spec_depth() == depth,
            r.spec_estimator() == estimator,
            r.spec_node_counter() is None,
    {
        Self { name: String::from_str(name), depth, estimator, color, node_counter: None }
    }

    pub fn set_node_counter(&mut self, node_counter: NodeCounter)
        ensures
            final(self).spec_node_counter() == Some(node_counter),
            final(self).spec_name() == old(self).spec_name(),
            final(self).spec_depth() == old(self).spec_depth(),
            final(self).spec_color() == old(self).spec_color(),
            final(self).spec_estimator() == old(self).spec_estimator(),
    {
        self.node_counter = Some(node_counter);
    }

    fn minmax(
        &self,
        board: Board,
        depth: usize,
        current_color: CheckersColor,
        maximising: bool,
    ) -> (r: i32)
        ensures
            r == spec_minmax(
                self.spec_estimator(),
                board,
                depth as int,
                current_color,
                maximising,
                self.spec_color(),
                self.spec_depth() as int,
            ),
        decreases depth, 1int,
    {
        if depth == 0 {
            return self.estimator.estimate(board, self.color, false);
        }
        let all_captures = MoveExecutor::get_all_captures(&board, current_color);
        if all_captures.len() > 0 {
            proof {
                lemma_all_captures_runnable(board, current_color);
                assert forall|t: int| 0 <= t < all_captures@.len() implies chain_runnable(
                    board,
                    (#[trigger] all_captures@[t])@,
                ) by {
                    assert(crate::checkers_utils::chains_view(all_captures@)[t]
                        == all_captures@[t]@);
                    assert(spec_all_captures(board, current_color)[t] == all_captures@[t]@);
                }
            }
            return self.minmax_jumps(board, &all_captures, depth, current_color, maximising);
        }
        let all_moves = MoveExecutor::get_all_moves(&board, current_color);
        if all_moves.len() > 0 {
            proof {
                lemma_all_moves_runnable(board, current_color);
                assert forall|t: int| 0 <= t < all_moves@.len() implies move_runnable(
                    board,
                    #[trigger] all_moves@[t],
                ) by {
                    assert(spec_all_moves(board, current_color)[t] == all_moves@[t]);
                }
            }
            return self.minmax_moves(board, &all_moves, depth, current_color, maximising);
        }
        let current_estimation = self.estimator.estimate(board, self.color, true);
        let shifted: i128 = if maximising {
            current_estimation as i128 + self.depth as i128 - depth as i128
        } else {
            current_estimation as i128 - self.depth as i128 + depth as i128
        };
        if shifted > i32::MAX as i128 {
            i32::MAX
        } else if shifted < i32::MIN as i128 {
            i32::MIN
        } else {
            shifted as i32
        }
    }

    fn minmax_jumps(
        &self,
        board: Board,
        jumps: &Vec<Vec<Jump>>,
        depth: usize,
        current_color: CheckersColor,
        maximising: bool,
    ) -> (r: i32)
        requires
            depth >= 1,
            forall|t: int|
                0 <= t < jumps@.len() ==> chain_runnable(board, (#[trigger] jumps@[t])@),
        ensures
            r == spec_minmax_jumps(
                self.spec_estimator(),
                board,
                crate::checkers_utils::chains_view(jumps@),
                0,
                depth as int,
                current_color,
                maximising,
                self.spec_color(),
                self.spec_depth() as int,
            ),
        decreases depth, 0int,
    {
        let ghost chains = crate::checkers_utils::chains_view(jumps@);
        let ghost est = self.spec_estimator();
        let mut current_best: i32 = if maximising {
            i32::MIN
        } else {
            i32::MAX
        };
        let mut i: usize = 0;
        while i < jumps.len()
            invariant
                i <= jumps@.len(),
                depth >= 1,
                chains == crate::checkers_utils::chains_view(jumps@),
                est == self.spec_estimator(),
                forall|t: int|
                    0 <= t < jumps@.len() ==> chain_runnable(board, (#[trigger] jumps@[t])@),
                maximising ==> (if current_best >= spec_minmax_jumps(
                    est,
                    board,
                    chains,
                    i as int,
                    depth as int,
                    current_color,
                    maximising,
                    self.spec_color(),
                    self.spec_depth() as int,
                ) {
                    current_best
                } else {
                    spec_minmax_jumps(
                        est,
                        board,
                        chains,
                        i as int,
                        depth as int,
                        current_color,
                        maximising,
                        self.spec_color(),
                        self.spec_depth() as int,
                    )
                }) == spec_minmax_jumps(
                    est,
                    board,
                    chains,
                    0,
                    depth as int,
                    current_color,
                    maximising,
                    self.spec_color(),
                    self.spec_depth() as int,
                ),
                !maximising ==> (if current_best <= spec_minmax_jumps(
                    est,
                    board,
                    chains,
                    i as int,
                    depth as int,
                    current_color,
                    maximising,
                    self.spec_color(),
                    self.spec_depth() as int,
                ) {
                    current_best
                } else {
                    spec_minmax_jumps(
                        est,
                        board,
                        chains,
                        i as int,
                        depth as int,
                        current_color,
                        maximising,
                        self.spec_color(),
                        self.spec_depth() as int,
                    )
                }) == spec_minmax_jumps(
                    est,
                    board,
                    chains,
                    0,
                    depth as int,
                    current_color,
                    maximising,
                    self.spec_color(),
                    self.spec_depth() as int,
                ),
            decreases jumps@.len() - i,
        {
            let jump = &jumps[i];
            let new_board = MoveExecutor::execute_capture(&board, jump);
            let est_v = self.minmax(new_board, depth - 1, current_color.opposite_color(), !maximising);
            if maximising {
                if est_v > current_best {
                    current_best = est_v;
                }
            } else {
                if est_v < current_best {
                    current_best = est_v;
                }
            }
            i = i + 1;
        }
        current_best
    }

    fn minmax_moves(
        &self,
        board: Board,
        moves: &Vec<SimpleMove>,
        depth: usize,
        current_color: CheckersColor,
        maximising: bool,
    ) -> (r: i32)
        requires
            depth >= 1,
            forall|t: int| 0 <= t < moves@.len() ==> move_runnable(board, #[trigger] moves@[t]),
        ensures
            r == spec_minmax_moves(
                self.spec_estimator(),
                board,
                moves@,
                0,
                depth as int,
                current_color,
                maximising,
                self.spec_color(),
                self.spec_depth() as int,
            ),
        decreases depth, 0int,
    {
        let ghost est = self.spec_estimator();
        let mut current_best: i32 = if maximising {
            i32::MIN
        } else {
            i32::MAX
        };
        let mut i: usize = 0;
        while i < moves.len()
            invariant
                i <= moves@.len(),
                depth >= 1,
                est == self.spec_estimator(),
                forall|t: int| 0 <= t < moves@.len() ==> move_runnable(board, #[trigger] moves@[t]),
                maximising ==> (if current_best >= spec_minmax_moves(
                    est,
                    board,
                    moves@,
                    i as int,
                    depth as int,
                    current_color,
                    maximising,
                    self.spec_color(),
                    self.spec_depth() as int,
                ) {
                    current_best
                } else {
                    spec_minmax_moves(
                        est,
                        board,
                        moves@,
                        i as int,
                        depth as int,
                        current_color,
                        maximising,
                        self.spec_color(),
                        self.spec_depth() as int,
                    )
                }) == spec_minmax_moves(
                    est,
                    board,
                    moves@,
                    0,
                    depth as int,
                    current_color,
                    maximising,
                    self.spec_color(),
                    self.spec_depth() as int,
                ),
                !maximising ==> (if current_best <= spec_minmax_moves(
                    est,
                    board,
                    moves@,
                    i as int,
                    depth as int,
                    current_color,
                    maximising,
                    self.spec_color(),
                    self.spec_depth() as int,
                ) {
                    current_best
                } else {
                    spec_minmax_moves(
                        est,
                        board,
                        moves@,
                        i as int,
                        depth as int,
                        current_color,
                        maximising,
                        self.spec_color(),
                        self.spec_depth() as int,
                    )
                }) == spec_minmax_moves(
                    est,
                    board,
                    moves@,
                    0,
                    depth as int,
                    current_color,
                    maximising,
                    self.spec_color(),
                    self.spec_depth() as int,
                ),
            decreases moves@.len() - i,
        {
            let m = moves[i];
            let new_board = MoveExecutor::execute_move(board, m);
            let est_v = self.minmax(new_board, depth - 1, current_color.opposite_color(), !maximising);
            if maximising {
                if est_v > current_best {
                    current_best = est_v;
                }
            } else {
                if est_v < current_best {
                    current_best = est_v;
                }
            }
            i = i + 1;
        }
        current_best
    }

    /// Evaluates each offered move by minimax and returns the index of
    /// one whose evaluation ties the best value found, picked uniformly
    /// at random among the ties; with the random override on, a uniformly
    /// random index.
    pub fn move_piece(
        &self,
        possible_moves: &Vec<SimpleMove>,
        board: Board,
        allow_first_random: bool,
    ) -> (r: usize)
        requires
            possible_moves@.len() >= 1,
            self.spec_depth() >= 1,
            forall|t: int|
                0 <= t < possible_moves@.len() ==> move_runnable(
                    board,
                    #[trigger] possible_moves@[t],
                ),
        ensures
            r < possible_moves@.len(),
            !allow_first_random ==> spec_move_eval(
                self.spec_estimator(),
                board,
                possible_moves@[r as int],
                self.spec_color(),
                self.spec_depth() as int,
            ) == spec_best_move_eval(
                self.spec_estimator(),
                board,
                possible_moves@,
                0,
                self.spec_color(),
                self.spec_depth() as int,
            ),
    {
        let ghost est = self.spec_estimator();
        let ghost total = self.spec_depth() as int;
        if allow_first_random {
            return random_below(possible_moves.len());
        }
        if possible_moves.len() == 1 {
            proof {
                assert(spec_best_move_eval(est, board, possible_moves@, 1, self.spec_color(), total)
                    == i32::MIN);
                assert(spec_best_move_eval(est, board, possible_moves@, 0, self.spec_color(), total)
                    == spec_move_eval(est, board, possible_moves@[0], self.spec_color(), total));
            }
            return 0;
        }
        let mut best_moves: Vec<usize> = Vec::new();
        let mut best_eval = i32::MIN;
        let mut i: usize = 0;
        while i < possible_moves.len()
            invariant
                i <= possible_moves@.len(),
                self.spec_depth() >= 1,
                est == self.spec_estimator(),
                total == self.spec_depth() as int,
                forall|t: int|
                    0 <= t < possible_moves@.len() ==> move_runnable(
                        board,
                        #[trigger] possible_moves@[t],
                    ),
                i == 0 ==> best_eval == i32::MIN,
                i >= 1 ==> best_moves@.len() >= 1,
                forall|t: int|
                    0 <= t < best_moves@.len() ==> (#[trigger] best_moves@[t]) < possible_moves@.len()
                        && spec_move_eval(
                        est,
                        board,
                        possible_moves@[best_moves@[t] as int],
                        self.spec_color(),
                        total,
                    ) == best_eval,
                (if best_eval >= spec_best_move_eval(
                    est,
                    board,
                    possible_moves@,
                    i as int,
                    self.spec_color(),
                    total,
                ) {
                    best_eval
                } else {
                    spec_best_move_eval(
                        est,
                        board,
                        possible_moves@,
                        i as int,
                        self.spec_color(),
                        total,
                    )
                }) == spec_best_move_eval(
                    est,
                    board,
                    possible_moves@,
                    0,
                    self.spec_color(),
                    total,
                ),
            decreases possible_moves@.len() - i,
        {
            let mov = possible_moves[i];
            let new_board = MoveExecutor::execute_move(board, mov);
            let eval = self.minmax(new_board, self.depth - 1, self.color.opposite_color(), false);
            if eval > best_eval {
                best_eval = eval;
                best_moves = Vec::new();
                best_moves.push(i);
            } else if eval == best_eval {
                best_moves.push(i);
            }
            i = i + 1;
        }
        let pos = random_below(best_moves.len());
        best_moves[pos]
    }

    /// As `move_piece`, over the offered capture chains.
    pub fn capture(
        &self,
        possible_captures: &Vec<&Vec<Jump>>,
        board: Board,
        allow_first_random: bool,
    ) -> (r: usize)
        requires
            possible_captures@.len() >= 1,
            self.spec_depth() >= 1,
            forall|t: int|
                0 <= t < possible_captures@.len() ==> chain_runnable(
                    board,
                    (#[trigger] possible_captures@[t])@,
                ),
        ensures
            r < possible_captures@.len(),
            !allow_first_random ==> spec_cap_eval(
                self.spec_estimator(),
                board,
                possible_captures@[r as int]@,
                self.spec_color(),
                self.spec_depth() as int,
            ) == spec_best_cap_eval(
                self.spec_estimator(),
                board,
                ref_chains_view(possible_captures@),
                0,
                self.spec_color(),
                self.spec_depth() as int,
            ),
    {
        let ghost est = self.spec_estimator();
        let ghost total = self.spec_depth() as int;
        let ghost chains = ref_chains_view(possible_captures@);
        if allow_first_random {
            return random_below(possible_captures.len());
        }
        if possible_captures.len() == 1 {
            proof {
                assert(chains[0] == possible_captures@[0]@);
                assert(spec_best_cap_eval(est, board, chains, 1, self.spec_color(), total)
                    == i32::MIN);
                assert(spec_best_cap_eval(est, board, chains, 0, self.spec_color(), total)
                    == spec_cap_eval(est, board, chains[0], self.spec_color(), total));
            }
            return 0;
        }
        let mut best_captures: Vec<usize> = Vec::new();
        let mut best_eval = i32::MIN;
        let mut i: usize = 0;
        while i < possible_captures.len()
            invariant
                i <= possible_captures@.len(),
                self.spec_depth() >= 1,
                est == self.spec_estimator(),
                total == self.spec_depth() as int,
                chains == ref_chains_view(possible_captures@),
                forall|t: int|
                    0 <= t < possible_captures@.len() ==> chain_runnable(
                        board,
                        (#[trigger] possible_captures@[t])@,
                    ),
                i == 0 ==> best_eval == i32::MIN,
                i >= 1 ==> best_captures@.len() >= 1,
                forall|t: int|
                    0 <= t < best_captures@.len() ==> (#[trigger] best_captures@[t])
                        < possible_captures@.len() && spec_cap_eval(
                        est,
                        board,
                        chains[best_captures@[t] as int],
                        self.spec_color(),
                        total,
                    ) == best_eval,
                (if best_eval >= spec_best_cap_eval(
                    est,
                    board,
                    chains,
                    i as int,
                    self.spec_color(),
                    total,
                ) {
                    best_eval
                } else {
                    spec_best_cap_eval(est, board, chains, i as int, self.spec_color(), total)
                }) == spec_best_cap_eval(est, board, chains, 0, self.spec_color(), total),
            decreases possible_captures@.len() - i,
        {
            let capture_path = possible_captures[i];
            let new_board = MoveExecutor::execute_capture(&board, capture_path);
            let eval = self.minmax(new_board, self.depth - 1, self.color.opposite_color(), false);
            proof {
                assert(chains[i as int] == possible_captures@[i as int]@);
            }
            if eval > best_eval {
                best_eval = eval;
                best_captures = Vec::new();
                best_captures.push(i);
            } else if eval == best_eval {
                best_captures.push(i);
            }
            i = i + 1;
        }
        let pos = random_below(best_captures.len());
        best_captures[pos]
    }

    pub fn get_name(&self) -> (r: &String)
        ensures
            r@ == self.spec_name(),
    {
        &self.name
    }

    pub fn set_color(&mut self, color: CheckersColor)
        ensures
            final(self).spec_color() == color,
            final(self).spec_name() == old(self).spec_name(),
            final(self).spec_depth() == old(self).spec_depth(),
            final(self).spec_estimator() == old(self).spec_estimator(),
            final(self).spec_node_counter() == old(self).spec_node_counter(),
    {
        self.color = color;
    }

    pub fn get_color(&self) -> (r: CheckersColor)
        ensures
            r == self.spec_color(),
    {
        self.color
    }
}

} // verus!
