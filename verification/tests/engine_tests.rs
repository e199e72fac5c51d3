use checkers::board::Board;
use checkers::board_estimators::{CountEstimator, Estimator};
use checkers::checkers_utils::{is_in_bounds, MoveExecutor};
use checkers::moves::{Jump, Move, SimpleMove};
use checkers::pieces::{CheckersColor, Piece};
use checkers::players::{DummyBot, MinMaxBot};
use checkers::statistics::NodeCounter;
use itertools::Itertools;

#[test]
fn get_pieces_test() {
    let board = Board::from_mockup([
        ["", "BP", "", "BP", "", "BP", "", ""],
        ["WP", "", "WP", "", "", "", "", ""],
        ["", "", "", "", "", "", "", ""],
        ["", "", "", "", "", "", "", ""],
        ["", "", "", "", "", "", "", ""],
        ["", "", "", "", "", "", "", ""],
        ["", "", "", "BQ", "", "", "", ""],
        ["", "", "", "", "", "", "", ""],
    ]);
    let pieces = MoveExecutor::get_pieces(&board, CheckersColor::Black);
    let res: Vec<(usize, usize)> = vec![(0, 1), (0, 3), (0, 5), (6, 3)];
    for piece in pieces {
        assert!(res.contains(&piece));
    }

    let pieces = MoveExecutor::get_pieces(&board, CheckersColor::White);
    let res: Vec<(usize, usize)> = vec![(1, 0), (1, 2)];
    for piece in pieces {
        assert!(res.contains(&piece));
    }
}

#[test]
fn get_capturing_pieces_test() {
    let board = Board::from_mockup([
        ["  ", "BP", "  ", "BP", "  ", "BP", "  ", "  "],
        ["WP", "  ", "WP", "  ", "  ", "  ", "  ", "  "],
        ["  ", "  ", "  ", "  ", "  ", "  ", "  ", "  "],
        ["  ", "  ", "  ", "  ", "  ", "  ", "  ", "  "],
        ["  ", "  ", "  ", "  ", "  ", "WQ", "  ", "  "],
        ["  ", "  ", "  ", "  ", "  ", "  ", "  ", "  "],
        ["  ", "  ", "  ", "BQ", "  ", "  ", "  ", "  "],
        ["  ", "  ", "  ", "  ", "  ", "  ", "  ", "  "],
    ]);
    let pieces = MoveExecutor::get_pieces(&board, CheckersColor::Black);
    let (cap_p, cap_q) = MoveExecutor::get_capturing_pieces(&board, &pieces, CheckersColor::Black);
    let p_res: Vec<(usize, usize)> = vec![(0, 1), (0, 3)];
    let q_res: Vec<(usize, usize)> = vec![(6, 3)];
    for pawn in cap_p {
        assert!(p_res.contains(&pawn));
    }
    for queen in cap_q {
        assert!(q_res.contains(&queen));
    }
}

#[test]
fn queen_multiple_capture_test() {
    let mut board = Board::from_mockup([
        ["  ", "  ", "  ", "WQ", "  ", "  ", "  ", "  "],
        ["  ", "  ", "BP", "  ", "  ", "  ", "  ", "  "],
        ["  ", "  ", "  ", "  ", "  ", "BP", "  ", "  "],
        ["  ", "  ", "BP", "  ", "  ", "  ", "  ", "  "],
        ["  ", "BP", "  ", "  ", "  ", "  ", "  ", "  "],
        ["  ", "  ", "  ", "  ", "  ", "  ", "BP", "  "],
        ["  ", "  ", "  ", "BP", "  ", "  ", "  ", "  "],
        ["  ", "  ", "  ", "  ", "  ", "  ", "  ", "  "],
    ]);
    println!("Before capturing:\n{:b}", board.get_board());
    let pieces = MoveExecutor::get_pieces(&board, CheckersColor::White);
    let (_, cq) = MoveExecutor::get_capturing_pieces(&board, &pieces, CheckersColor::White);
    let poss_cap = MoveExecutor::get_possible_queen_captures(&board, &cq, CheckersColor::White);
    board = MoveExecutor::execute_capture(&board, poss_cap.first().unwrap());
    println!("After capture:\n{:b}", board.get_board());
    let comp_board = Board::from_mockup([
        ["  ", "  ", "  ", "  ", "  ", "  ", "  ", "  "],
        ["  ", "  ", "  ", "  ", "WQ", "  ", "  ", "  "],
        ["  ", "  ", "  ", "  ", "  ", "  ", "  ", "  "],
        ["  ", "  ", "BP", "  ", "  ", "  ", "  ", "  "],
        ["  ", "  ", "  ", "  ", "  ", "  ", "  ", "  "],
        ["  ", "  ", "  ", "  ", "  ", "  ", "  ", "  "],
        ["  ", "  ", "  ", "  ", "  ", "  ", "  ", "  "],
        ["  ", "  ", "  ", "  ", "  ", "  ", "  ", "  "],
    ]);
    assert_eq!(comp_board.get_board(), board.get_board());
}

#[test]
fn get_all_pawn_moves_test() {
    println!("Checking basic pawns...");
    let board = Board::new(2).unwrap();
    let possible_moves: Vec<(usize, usize)> = MoveExecutor::get_all_moves(
        &board,
        CheckersColor::Black,
    )
        .iter()
        .map(|m| m.end_pair())
        .unique()
        .collect();
    let res = vec![(2, 1), (2, 3), (2, 5), (2, 7)];
    assert_eq!(&res.len(), &possible_moves.len());
    for pos_mov in possible_moves {
        assert!(res.contains(&pos_mov));
    }

    println!("Checking queens...");
    let board = Board::from_mockup([
        ["  ", "  ", "  ", "  ", "  ", "  ", "  ", "  "],
        ["  ", "  ", "  ", "  ", "WQ", "  ", "  ", "  "],
        ["  ", "  ", "  ", "  ", "  ", "  ", "  ", "  "],
        ["  ", "  ", "WP", "  ", "  ", "  ", "  ", "  "],
        ["  ", "  ", "  ", "  ", "  ", "  ", "  ", "WP"],
        ["  ", "  ", "  ", "  ", "  ", "  ", "  ", "  "],
        ["  ", "  ", "  ", "  ", "  ", "  ", "  ", "  "],
        ["  ", "  ", "  ", "  ", "  ", "  ", "  ", "  "],
    ]);
    println!("Base setup:\n{:b}", board.get_board());
    let possible_moves: Vec<(usize, usize)> = MoveExecutor::get_all_moves(
        &board,
        CheckersColor::White,
    )
        .iter()
        .map(|m| m.end_pair())
        .unique()
        .collect();
    let res = vec![(2, 1), (2, 3), (3, 6), (0, 3), (0, 5), (2, 5)];
    assert_eq!(&res.len(), &possible_moves.len());
    for pos_mov in possible_moves {
        assert!(res.contains(&pos_mov));
    }
}

#[test]
fn promote_to_queen_test() {
    let mut board = Board::from_mockup([
        ["  ", "  ", "  ", "  ", "  ", "WP", "  ", "  "],
        ["  ", "  ", "  ", "  ", "  ", "  ", "WP", "  "],
        ["  ", "  ", "  ", "  ", "  ", "  ", "  ", "  "],
        ["  ", "  ", "  ", "  ", "  ", "  ", "  ", "  "],
        ["  ", "  ", "  ", "  ", "  ", "  ", "  ", "  "],
        ["  ", "  ", "  ", "  ", "BP", "  ", "  ", "  "],
        ["  ", "  ", "  ", "  ", "  ", "  ", "  ", "  "],
        ["BP", "  ", "BP", "  ", "  ", "  ", "  ", "  "],
    ]);
    println!("Board setup:\n{:b}", board.get_board());
    board = MoveExecutor::promote_to_queen(&board);
    println!("Post move:\n{:b}", board.get_board());
    let board_cmp = Board::from_mockup([
        ["  ", "  ", "  ", "  ", "  ", "WQ", "  ", "  "],
        ["  ", "  ", "  ", "  ", "  ", "  ", "WP", "  "],
        ["  ", "  ", "  ", "  ", "  ", "  ", "  ", "  "],
        ["  ", "  ", "  ", "  ", "  ", "  ", "  ", "  "],
        ["  ", "  ", "  ", "  ", "  ", "  ", "  ", "  "],
        ["  ", "  ", "  ", "  ", "BP", "  ", "  ", "  "],
        ["  ", "  ", "  ", "  ", "  ", "  ", "  ", "  "],
        ["BQ", "  ", "BQ", "  ", "  ", "  ", "  ", "  "],
    ]);
    assert_eq!(board_cmp.get_board(), board.get_board());
}

#[test]
fn mandatory_longest_capture_scenario() {
    // White has two-jump chains, one-jump chains, and several simple
    // moves; only the longest chains are legal options this turn.
    let board = Board::from_mockup([
        ["  ", "  ", "  ", "  ", "  ", "  ", "  ", "  "],
        ["  ", "  ", "  ", "  ", "  ", "  ", "  ", "  "],
        ["  ", "  ", "  ", "  ", "  ", "BP", "  ", "  "],
        ["  ", "  ", "  ", "  ", "  ", "  ", "  ", "  "],
        ["  ", "  ", "  ", "BP", "  ", "  ", "  ", "  "],
        ["  ", "  ", "WP", "  ", "  ", "  ", "  ", "  "],
        ["  ", "  ", "  ", "BP", "  ", "  ", "  ", "  "],
        ["  ", "  ", "WP", "  ", "  ", "  ", "  ", "  "],
    ]);
    let moves = MoveExecutor::get_all_moves(&board, CheckersColor::White);
    assert!(moves.len() > 0);
    let captures = MoveExecutor::get_all_captures(&board, CheckersColor::White);
    // both pawns reach a two-jump chain; the one-jump chains are dropped
    assert_eq!(captures.len(), 2);
    assert_eq!(captures[0].len(), 2);
    assert_eq!(captures[0][0], Jump::new(5, 2, 3, 4, 4, 3).unwrap());
    assert_eq!(captures[0][1], Jump::new(3, 4, 1, 6, 2, 5).unwrap());
    assert_eq!(captures[1].len(), 2);
    assert_eq!(captures[1][0], Jump::new(7, 2, 5, 4, 6, 3).unwrap());
    assert_eq!(captures[1][1], Jump::new(5, 4, 3, 2, 4, 3).unwrap());

    // pooling through get_longest_captures keeps exactly that chain
    let pieces = MoveExecutor::get_pieces(&board, CheckersColor::White);
    let (cp, cq) = MoveExecutor::get_capturing_pieces(&board, &pieces, CheckersColor::White);
    let pawn_caps = MoveExecutor::get_possible_pawn_captures(&board, &cp, CheckersColor::White);
    let queen_caps = MoveExecutor::get_possible_queen_captures(&board, &cq, CheckersColor::White);
    let mut pawn_refs: Vec<&Vec<Jump>> = pawn_caps.iter().collect();
    let mut queen_refs: Vec<&Vec<Jump>> = queen_caps.iter().collect();
    let longest = MoveExecutor::get_longest_captures(&mut pawn_refs, &mut queen_refs);
    assert!(pawn_refs.is_empty());
    assert!(queen_refs.is_empty());
    assert_eq!(longest.len(), 2);
    assert_eq!(longest[0].len(), 2);
    assert_eq!(longest[1].len(), 2);
    assert_eq!(longest[0][0], Jump::new(5, 2, 3, 4, 4, 3).unwrap());
    assert_eq!(longest[1][0], Jump::new(7, 2, 5, 4, 6, 3).unwrap());
}

#[test]
fn has_game_ended_test() {
    // a color with no pieces has lost, whatever the other color has
    let mut board = Board::empty();
    let _ = board.set_at(4, 3, Board::WHITE_PAWN);
    assert!(MoveExecutor::has_game_ended(board, CheckersColor::Black));
    assert!(!MoveExecutor::has_game_ended(board, CheckersColor::White));

    // a color with pieces but neither capture nor move has lost
    let blocked = Board::from_mockup([
        ["  ", "WP", "  ", "WP", "  ", "  ", "  ", "  "],
        ["WP", "  ", "WP", "  ", "  ", "  ", "  ", "  "],
        ["  ", "  ", "  ", "  ", "  ", "  ", "  ", "  "],
        ["  ", "  ", "  ", "  ", "  ", "  ", "  ", "  "],
        ["  ", "  ", "  ", "  ", "  ", "  ", "  ", "  "],
        ["  ", "  ", "  ", "  ", "  ", "  ", "  ", "  "],
        ["  ", "  ", "  ", "  ", "  ", "  ", "  ", "  "],
        ["  ", "  ", "  ", "  ", "  ", "  ", "  ", "  "],
    ]);
    assert!(MoveExecutor::has_game_ended(blocked, CheckersColor::White));

    // a fresh game has ended for nobody
    let board = Board::new(2).unwrap();
    assert!(!MoveExecutor::has_game_ended(board, CheckersColor::White));
    assert!(!MoveExecutor::has_game_ended(board, CheckersColor::Black));
}

#[test]
fn count_estimator_material() {
    let board = Board::from_mockup([
        ["  ", "  ", "  ", "  ", "  ", "  ", "  ", "  "],
        ["  ", "  ", "  ", "  ", "  ", "  ", "  ", "  "],
        ["  ", "  ", "  ", "  ", "  ", "WP", "  ", "  "],
        ["  ", "  ", "BQ", "  ", "  ", "  ", "  ", "  "],
        ["  ", "  ", "  ", "  ", "  ", "  ", "  ", "  "],
        ["  ", "  ", "  ", "  ", "WQ", "  ", "  ", "  "],
        ["  ", "  ", "  ", "  ", "  ", "BP", "  ", "  "],
        ["  ", "  ", "  ", "  ", "  ", "  ", "  ", "  "],
    ]);
    let est = CountEstimator::new(1, 3);
    // one white pawn (+1), one white queen (+3), one black queen (-3),
    // one black pawn (-1)
    assert_eq!(est.estimate(board, CheckersColor::White, false), 0);
    let est = CountEstimator::new(2, 5);
    assert_eq!(est.estimate(board, CheckersColor::White, false), 0);

    let mut board = Board::empty();
    let _ = board.set_at(4, 3, Board::WHITE_PAWN);
    let _ = board.set_at(2, 1, Board::WHITE_QUEEN);
    let est = CountEstimator::new(1, 3);
    assert_eq!(est.estimate(board, CheckersColor::White, false), 4);
    // black has no pieces: with the endgame check on, white-favouring max
    assert_eq!(est.estimate(board, CheckersColor::White, true), i32::MAX);
    assert_eq!(est.estimate(board, CheckersColor::Black, true), i32::MIN);
}

#[test]
fn minmax_bot_picks_the_saving_move() {
    // White pawn on (5,2), black pawn on (3,0). Moving to (4,1) walks
    // into the capture; moving to (4,3) is safe. Depth-2 minimax must
    // pick the safe move, and must pick it again on a repeated run.
    let board = Board::from_mockup([
        ["  ", "  ", "  ", "  ", "  ", "  ", "  ", "  "],
        ["  ", "  ", "  ", "  ", "  ", "  ", "  ", "  "],
        ["  ", "  ", "  ", "  ", "  ", "  ", "  ", "  "],
        ["BP", "  ", "  ", "  ", "  ", "  ", "  ", "  "],
        ["  ", "  ", "  ", "  ", "  ", "  ", "  ", "  "],
        ["  ", "  ", "WP", "  ", "  ", "  ", "  ", "  "],
        ["  ", "  ", "  ", "  ", "  ", "  ", "  ", "  "],
        ["  ", "  ", "  ", "  ", "  ", "  ", "  ", "  "],
    ]);
    let moves = MoveExecutor::get_all_moves(&board, CheckersColor::White);
    assert_eq!(moves.len(), 2);
    assert_eq!(moves[0], SimpleMove::new(5, 2, 4, 1).unwrap());
    assert_eq!(moves[1], SimpleMove::new(5, 2, 4, 3).unwrap());
    let est = CountEstimator::new(1, 3);
    let bot = MinMaxBot::new("scout", CheckersColor::White, 2, &est);
    let first = bot.move_piece(&moves, board, false);
    let second = bot.move_piece(&moves, board, false);
    assert_eq!(first, 1);
    assert_eq!(second, 1);
}

#[test]
fn minmax_bot_single_capture() {
    let board = Board::from_mockup([
        ["  ", "  ", "  ", "  ", "  ", "  ", "  ", "  "],
        ["  ", "  ", "  ", "  ", "  ", "  ", "  ", "  "],
        ["  ", "  ", "  ", "  ", "  ", "  ", "  ", "  "],
        ["  ", "  ", "  ", "  ", "  ", "  ", "  ", "  "],
        ["  ", "  ", "  ", "BP", "  ", "  ", "  ", "  "],
        ["  ", "  ", "WP", "  ", "  ", "  ", "  ", "  "],
        ["  ", "  ", "  ", "  ", "  ", "  ", "  ", "  "],
        ["  ", "  ", "  ", "  ", "  ", "  ", "  ", "  "],
    ]);
    let captures = MoveExecutor::get_all_captures(&board, CheckersColor::White);
    assert_eq!(captures.len(), 1);
    let refs: Vec<&Vec<Jump>> = captures.iter().collect();
    let est = CountEstimator::new(1, 3);
    let bot = MinMaxBot::new("scout", CheckersColor::White, 2, &est);
    assert_eq!(bot.capture(&refs, board, false), 0);
}

#[test]
fn dummy_bot_stays_in_range() {
    let board = Board::new(2).unwrap();
    let moves = MoveExecutor::get_all_moves(&board, CheckersColor::White);
    assert!(moves.len() > 0);
    let bot = DummyBot::new("lucky", CheckersColor::White);
    for _ in 0..32 {
        assert!(bot.move_piece(&moves, board) < moves.len());
    }
    assert_eq!(bot.get_name(), "lucky");
    let mut bot = bot;
    bot.set_color(CheckersColor::Black);
    assert!(matches!(bot.get_color(), CheckersColor::Black));
}

#[test]
fn node_counter_counts() {
    let mut c = NodeCounter::new();
    assert_eq!(c.nodes, 0);
    c.up();
    c.up();
    c.up();
    assert_eq!(c.nodes, 3);
    c.down();
    assert_eq!(c.nodes, 1);
    c.zero();
    assert_eq!(c.nodes, 0);
}

#[test]
fn opposite_color_is_an_involution() {
    let w = CheckersColor::White;
    let b = CheckersColor::Black;
    assert_eq!(w.opposite_color(), b);
    assert_eq!(b.opposite_color(), w);
    assert_eq!(w.opposite_color().opposite_color(), w);
    assert_eq!(b.opposite_color().opposite_color(), b);
}

#[test]
fn piece_codes_round_trip() {
    assert_eq!(Piece::Pawn(CheckersColor::White).board_u8_representation(), Board::WHITE_PAWN);
    assert_eq!(Piece::Queen(CheckersColor::White).board_u8_representation(), Board::WHITE_QUEEN);
    assert_eq!(Piece::Pawn(CheckersColor::Black).board_u8_representation(), Board::BLACK_PAWN);
    assert_eq!(Piece::Queen(CheckersColor::Black).board_u8_representation(), Board::BLACK_QUEEN);
    assert!(matches!(Piece::Pawn(CheckersColor::White).color(), CheckersColor::White));
    assert!(matches!(Piece::Queen(CheckersColor::Black).color(), CheckersColor::Black));
}

#[test]
fn in_bounds_matches_board_edges() {
    assert!(is_in_bounds(0, 0));
    assert!(is_in_bounds(7, 7));
    assert!(!is_in_bounds(-1, 3));
    assert!(!is_in_bounds(3, 8));
}

#[test]
fn minmax_bot_accessors() {
    let est = CountEstimator::new(1, 3);
    let mut bot = MinMaxBot::new("deep", CheckersColor::White, 3, &est);
    assert_eq!(bot.get_name(), "deep");
    assert!(matches!(bot.get_color(), CheckersColor::White));
    bot.set_color(CheckersColor::Black);
    assert!(matches!(bot.get_color(), CheckersColor::Black));
    bot.set_node_counter(NodeCounter::new());
}

#[test]
fn fixed_test_board() {
    let board = Board::test();
    assert_eq!(board.get_board(), 0b00110001u128);
    let board: Board = Default::default();
    assert_eq!(board.get_board(), 0);
}
