use checkers::board::{Board, BoardIterator, Cell};
use checkers::checkers_utils::{alias_from_coordinates, CheckersError, MoveExecutor};
use checkers::moves::{Jump, SimpleMove};
use checkers::pieces::{CheckersColor, Piece};

#[test]
fn set_element_test() {
    println!("=== Set element test ===");
    let mut board = Board::empty();
    let res1 = board.set_at(0, 1, Board::BLACK_QUEEN);
    let _ = board.set_at(1, 0, Board::BLACK_PAWN);
    println!("Board with a BLACK pawn:\n{:b}", board.get_board());
    let res2 = board.set_at(1, 0, Board::WHITE_PAWN);
    println!("Board with a WHITE pawn:\n{:b}", board.get_board());
    assert_eq!(board.get_board(), 0b0001_0000_0000_0000_0111);
    assert_eq!(res1, Ok(()));
    assert_eq!(res2, Ok(()));

    let res3 = board.set_at(0, 0, Board::WHITE_QUEEN);
    let res4 = board.set_at(10, 1, Board::BLACK_PAWN);
    let res5 = board.set_at(0, 1, 0b1111);
    assert_eq!(res3, Err(CheckersError::RuleError));
    assert_eq!(res4, Err(CheckersError::IndexOutOfBounds));
    assert_eq!(res5, Err(CheckersError::PawnBinaryValueError));
}

#[test]
fn board_new_constructor_test() {
    let res = match Board::new(2) {
        Ok(_) => true,
        Err(_) => false,
    };
    assert!(res);

    let res = match Board::new(4) {
        Ok(_) => true,
        Err(_) => false,
    };
    assert!(!res);
}

#[test]
fn get_element_test() {
    let board = Board::new(2).unwrap();
    let elem = board.get_at(0, 1);
    let res = match elem {
        Ok(Some(Piece::Pawn(CheckersColor::Black))) => true,
        _ => false,
    };
    assert!(res);

    let elem = board.get_at(0, 10);
    let res = match elem {
        Err(CheckersError::IndexOutOfBounds) => true,
        _ => false,
    };
    assert!(res);
}

#[test]
fn capture_test() {
    println!("=== Capture test ===");
    let mut board = Board::empty();
    let _ = board.set_at(4, 1, Board::BLACK_PAWN);
    let _ = board.set_at(3, 2, Board::WHITE_QUEEN);
    let _ = board.set_at(1, 2, Board::WHITE_PAWN);
    let captures = vec![
        Jump::new(4, 1, 2, 3, 3, 2).unwrap(),
        Jump::new(2, 3, 0, 1, 1, 2).unwrap(),
    ];
    println!("Before capture:\n{:b}", board.get_board());
    board = MoveExecutor::execute_capture(&mut board, &captures);
    println!("After capture:\n{:b}", board.get_board());
    assert_eq!(board.get_board(), 0b0011_u128);
}

#[test]
fn move_test() {
    println!("=== Move test ===");
    let mut board = Board::empty();
    let _ = board.set_at(1, 2, Board::WHITE_PAWN);
    println!("Before move:\n{:b}", board.get_board());
    board = MoveExecutor::execute_move(board, SimpleMove::new(1, 2, 0, 3).unwrap());
    println!("After move:\n{:b}", board.get_board());
    assert_eq!(board.get_board(), 0b0001_0000);
}

#[test]
fn set_field_excluded_test() {
    let mut board = Board::empty();
    let _ = board.set_field_excluded(0, 3);
    let _ = board.set_at(0, 1, Board::WHITE_QUEEN);
    let _ = board.set_field_excluded(0, 1);
    assert_eq!(board.get_board(), 0b1000_1101);

    let res = board.set_field_excluded(10, 0);
    assert_eq!(res, Err(CheckersError::IndexOutOfBounds));

    let mut board = Board::empty();
    let _ = board.set_field_excluded(7, 6);
    assert_eq!(board.get_board(), 0b1000_u128 << (31 * 4));
}

#[test]
fn is_field_excluded_test() {
    let mut board = Board::new(2).unwrap();
    let _ = board.set_field_excluded(0, 1);
    assert!(board.is_field_excluded(0, 1).unwrap());

    let _ = board.set_field_excluded(5, 6);
    let res = board.is_field_excluded(5, 6);
    assert_eq!(res, Ok(true));

    let _ = board.set_field_excluded(0, 1);
    let res = board.is_field_excluded(10, 0);
    assert_eq!(res, Err(CheckersError::IndexOutOfBounds));
}

#[test]
fn reset_excluded_fields_test() {
    let mut board = Board::empty();
    let _ = board.set_field_excluded(1, 2);
    let _ = board.set_field_excluded(7, 4);
    board.reset_excluded_fields();
    assert_eq!(board.get_board(), 0);
}

#[test]
fn is_empty_at_test() {
    let board = Board::new(2).unwrap();
    assert!(!board.is_empty_at(0, 1).unwrap());
    assert!(board.is_empty_at(2, 3).unwrap());
    assert_eq!(board.is_empty_at(10, 0), Err(CheckersError::IndexOutOfBounds));
    assert_eq!(board.is_empty_at(2, 4), Err(CheckersError::RuleError));
}

#[test]
fn set_preserves_excluded_bit() {
    let mut board = Board::empty();
    let _ = board.set_field_excluded(0, 1);
    let _ = board.set_at(0, 1, Board::WHITE_PAWN);
    assert_eq!(board.is_field_excluded(0, 1), Ok(true));
    assert_eq!(board.get_board(), 0b1001);
    let _ = board.set_at(0, 1, Board::EMPTY);
    assert_eq!(board.is_field_excluded(0, 1), Ok(true));
    assert_eq!(board.get_board(), 0b1000);
}

#[test]
fn round_trip_every_square_and_code() {
    let codes = [
        Board::EMPTY,
        Board::WHITE_PAWN,
        Board::WHITE_QUEEN,
        Board::BLACK_PAWN,
        Board::BLACK_QUEEN,
    ];
    for x in 0..8usize {
        for y in 0..8usize {
            if (x + y) % 2 == 1 {
                for &code in codes.iter() {
                    let mut board = Board::new(2).unwrap();
                    let before = board.get_board();
                    assert_eq!(board.set_at(x, y, code), Ok(()));
                    let piece = board.get_at(x, y).unwrap();
                    match code {
                        0b0000 => assert!(piece.is_none()),
                        0b0001 => assert!(matches!(piece, Some(Piece::Pawn(CheckersColor::White)))),
                        0b0101 => {
                            assert!(matches!(piece, Some(Piece::Queen(CheckersColor::White))))
                        }
                        0b0011 => assert!(matches!(piece, Some(Piece::Pawn(CheckersColor::Black)))),
                        _ => assert!(matches!(piece, Some(Piece::Queen(CheckersColor::Black)))),
                    }
                    // every other 4-bit group of the packing is untouched
                    let shift = 16 * x + 4 * (y / 2);
                    let mask = !(0b1111u128 << shift);
                    assert_eq!(board.get_board() & mask, before & mask);
                }
            } else {
                let mut board = Board::new(2).unwrap();
                assert_eq!(board.set_at(x, y, Board::WHITE_PAWN), Err(CheckersError::RuleError));
                assert_eq!(board.get_at(x, y), Err(CheckersError::RuleError));
                assert_eq!(board.is_field_excluded(x, y), Err(CheckersError::RuleError));
            }
        }
    }
}

#[test]
fn out_of_bounds_everywhere() {
    let mut board = Board::empty();
    for &(x, y) in [(8usize, 0usize), (0, 8), (12, 3), (3, 255)].iter() {
        assert_eq!(board.get_at(x, y), Err(CheckersError::IndexOutOfBounds));
        assert_eq!(board.set_at(x, y, Board::WHITE_PAWN), Err(CheckersError::IndexOutOfBounds));
        assert_eq!(board.is_field_excluded(x, y), Err(CheckersError::IndexOutOfBounds));
        assert_eq!(board.is_empty_at(x, y), Err(CheckersError::IndexOutOfBounds));
        assert_eq!(board.set_field_excluded(x, y), Err(CheckersError::IndexOutOfBounds));
    }
}

#[test]
fn construction_bounds_and_pawn_counts() {
    for rows in [0usize, 4, 100] {
        match Board::new(rows) {
            Err(e) => assert_eq!(e, CheckersError::ConstructionError),
            Ok(_) => panic!("a board was built with {} pawn rows", rows),
        }
    }
    for rows in 1..=3usize {
        let board = Board::new(rows).unwrap();
        assert_eq!(board.pieces_count(CheckersColor::White), 4 * rows);
        assert_eq!(board.pieces_count(CheckersColor::Black), 4 * rows);
    }
}

#[test]
fn alias_labels() {
    assert_eq!(alias_from_coordinates(0, 0).unwrap(), "A8");
    assert_eq!(alias_from_coordinates(7, 7).unwrap(), "H1");
    assert_eq!(alias_from_coordinates(3, 2).unwrap(), "C5");
    assert_eq!(alias_from_coordinates(8, 0), Err(CheckersError::IndexOutOfBounds));
    assert_eq!(alias_from_coordinates(0, 9), Err(CheckersError::IndexOutOfBounds));
}

#[test]
fn board_iterator_walks_whole_board() {
    let board = Board::new(1).unwrap();
    let mut it = BoardIterator::new(&board);
    let mut cells = 0;
    let mut pieces = 0;
    while let Some(cell) = it.next() {
        if !cell.is_empty() {
            pieces += 1;
        }
        cells += 1;
    }
    assert_eq!(cells, 64);
    assert_eq!(pieces, 8);
}

#[test]
fn cell_wraps_piece() {
    let c = Cell::new(Some(Piece::Queen(CheckersColor::White)));
    assert!(!c.is_empty());
    let c = Cell::new(None);
    assert!(c.is_empty());
}
