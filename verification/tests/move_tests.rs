use chess_core::board::Board;
use chess_core::moves::Move;
use chess_core::pieces::Piece;

fn has(moves: &[Move], start: usize, end: usize) -> bool {
    moves.iter().any(|m| m.start == start && m.end == end)
}

fn same_set(a: &[Move], b: &[Move]) -> bool {
    a.iter().all(|m| b.contains(m)) && b.iter().all(|m| a.contains(m))
}

#[test]
fn starting_position_has_the_twenty_opening_moves() {
    let b = Board::starting();
    let moves = b.moves();
    assert_eq!(moves.len(), 20);
    // each pawn: single and double push
    for f in 0..8 {
        let pawn = 48 + f;
        assert!(has(&moves, pawn, pawn - 8));
        assert!(has(&moves, pawn, pawn - 16));
    }
    // the two knights: two jumps each
    assert!(has(&moves, 57, 40));
    assert!(has(&moves, 57, 42));
    assert!(has(&moves, 62, 45));
    assert!(has(&moves, 62, 47));
    // no move lands on a white piece
    for m in moves.iter() {
        if let Some(t) = b.troops[m.end] {
            assert!(t.color != b.turn);
        }
    }
}

#[test]
fn lone_rook_reaches_fourteen_squares() {
    let b = Board::from_fen("8/8/8/3R4/8/8/8/8 w - - 0 1").unwrap();
    let moves = b.moves();
    assert_eq!(moves.len(), 14);
    // rook on d5 = square 27: full rank and file
    for end in [3, 11, 19, 35, 43, 51, 59, 24, 25, 26, 28, 29, 30, 31] {
        assert!(has(&moves, 27, end));
    }
}

#[test]
fn ray_stops_at_first_occupied_square() {
    // rook a5, enemy pawn d5: the ray east ends on the capture
    let b = Board::from_fen("8/8/8/R2p4/8/8/8/8 w - - 0 1").unwrap();
    let moves = b.moves();
    assert!(has(&moves, 24, 25));
    assert!(has(&moves, 24, 26));
    assert!(has(&moves, 24, 27));
    assert!(!has(&moves, 24, 28));
    assert!(!has(&moves, 24, 31));
}

#[test]
fn own_piece_blocks_without_being_captured() {
    // rook a5, own pawn d5: the blocking square is a raw ray candidate but
    // the same-color filter removes it
    let b = Board::from_fen("8/8/8/R2P4/8/8/8/8 w - - 0 1").unwrap();
    let raw = b.generate_sliding_moves(24, Piece::Rook);
    assert!(raw.iter().any(|m| m.start == 24 && m.end == 27));
    let moves = b.moves();
    assert!(has(&moves, 24, 26));
    assert!(!has(&moves, 24, 27));
    assert!(!has(&moves, 24, 28));
}

#[test]
fn bishop_moves_diagonally() {
    let b = Board::from_fen("8/8/8/3B4/8/8/8/8 w - - 0 1").unwrap();
    let moves = b.moves();
    assert_eq!(moves.len(), 13);
    for end in [0, 9, 18, 36, 45, 54, 63, 6, 13, 20, 34, 41, 48] {
        assert!(has(&moves, 27, end));
    }
}

#[test]
fn queen_combines_rook_and_bishop_rays() {
    let b = Board::from_fen("8/8/8/3Q4/8/8/8/8 w - - 0 1").unwrap();
    let moves = b.moves();
    assert_eq!(moves.len(), 27);
}

#[test]
fn knight_in_a_corner_has_two_jumps() {
    let b = Board::from_fen("N7/8/8/8/8/8/8/8 w - - 0 1").unwrap();
    let moves = b.moves();
    assert_eq!(moves.len(), 2);
    assert!(has(&moves, 0, 17));
    assert!(has(&moves, 0, 10));
}

#[test]
fn knight_jumps_do_not_wrap_around_the_edge() {
    // knight on h5 = square 31: jumps westward only, never onto the a-file
    let b = Board::from_fen("8/8/8/7N/8/8/8/8 w - - 0 1").unwrap();
    let moves = b.moves();
    assert_eq!(moves.len(), 4);
    assert!(has(&moves, 31, 14));
    assert!(has(&moves, 31, 21));
    assert!(has(&moves, 31, 37));
    assert!(has(&moves, 31, 46));
}

#[test]
fn blocked_pawn_cannot_push() {
    let b = Board::from_fen("8/8/8/8/3p4/3P4/8/8 w - - 0 1").unwrap();
    let moves = b.moves();
    assert_eq!(moves.len(), 0);
}

#[test]
fn black_pawn_double_push_from_its_starting_rank() {
    let b = Board::from_fen("8/3p4/8/8/8/8/8/8 b - - 0 1").unwrap();
    let moves = b.moves();
    assert_eq!(moves.len(), 2);
    assert!(has(&moves, 11, 19));
    assert!(has(&moves, 11, 27));
}

#[test]
fn occupied_double_push_square_blocks_the_double_push() {
    let b = Board::from_fen("8/3p4/8/3P4/8/8/8/8 b - - 0 1").unwrap();
    let moves = b.moves();
    assert_eq!(moves.len(), 1);
    assert!(has(&moves, 11, 19));
}

#[test]
fn pawn_captures_diagonally_forward() {
    // white pawn e4, black pawns d5 and f5
    let b = Board::from_fen("8/8/8/3p1p2/4P3/8/8/8 w - - 0 1").unwrap();
    let moves = b.moves();
    assert_eq!(moves.len(), 3);
    assert!(has(&moves, 36, 28));
    assert!(has(&moves, 36, 27));
    assert!(has(&moves, 36, 29));
}

#[test]
fn pawn_diagonals_are_filtered_by_range_only() {
    // a raw pawn diagonal may cross the board edge onto the neighbouring
    // row; only destinations outside the board are discarded
    let b = Board::from_fen("8/8/7p/8/P7/8/8/8 w - - 0 1").unwrap();
    let moves = b.moves();
    assert_eq!(moves.len(), 2);
    assert!(has(&moves, 32, 24));
    assert!(has(&moves, 32, 23));
}

#[test]
fn en_passant_target_enables_the_capture() {
    let with_target = Board::from_fen("8/8/8/3pP3/8/8/8/8 w - d6 0 1").unwrap();
    let moves = with_target.moves();
    assert!(has(&moves, 28, 19));
    let mut without_target = Board::from_fen("8/8/8/3pP3/8/8/8/8 w - d6 0 1").unwrap();
    without_target.en_passant_target = None;
    let moves = without_target.moves();
    assert!(!has(&moves, 28, 19));
}

#[test]
fn king_moves_are_not_generated() {
    let b = Board::from_fen("4k3/8/8/8/8/8/8/4K3 w - - 0 1").unwrap();
    assert_eq!(b.moves().len(), 0);
}

#[test]
fn only_the_side_to_move_generates_moves() {
    let white = Board::from_fen("8/3p4/8/8/8/8/3P4/8 w - - 0 1").unwrap();
    for m in white.moves().iter() {
        assert_eq!(m.start, 51);
    }
    let black = Board::from_fen("8/3p4/8/8/8/8/3P4/8 b - - 0 1").unwrap();
    for m in black.moves().iter() {
        assert_eq!(m.start, 11);
    }
}

#[test]
fn generation_twice_yields_the_same_set() {
    let b = Board::from_fen("r1bqkbnr/pppp1ppp/2n5/1B2p3/4P3/5N2/PPPP1PPP/RNBQK2R b KQkq - 3 3")
        .unwrap();
    let first = b.moves();
    let second = b.moves();
    assert!(same_set(&first, &second));
    let s = Board::starting();
    assert!(same_set(&s.moves(), &s.moves()));
}

#[test]
fn move_lists_hold_no_duplicates() {
    let b = Board::from_fen("8/8/8/3Q4/8/8/8/8 w - - 0 1").unwrap();
    let moves = b.moves();
    for i in 0..moves.len() {
        for j in 0..moves.len() {
            if i != j {
                assert!(moves[i] != moves[j]);
            }
        }
    }
}
