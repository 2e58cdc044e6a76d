use chess_core::board::Board;
use chess_core::fen::{square_to_index, FenError};
use chess_core::pieces::{Color, Piece};

const START_FEN: &str = "rnbqkbnr/pppppppp/8/8/8/8/PPPPPPPP/RNBQKBNR w KQkq - 0 1";

#[test]
fn starting_fen_decodes() {
    let b = Board::from_fen(START_FEN).unwrap();
    assert_eq!(b.turn, Color::White);
    assert!(b.castling_rights.white_king_side);
    assert!(b.castling_rights.white_queen_side);
    assert!(b.castling_rights.black_king_side);
    assert!(b.castling_rights.black_queen_side);
    assert_eq!(b.en_passant_target, None);
    assert_eq!(b.troops.len(), 64);
    // black back rank
    assert_eq!(b.troops[0].unwrap().piece, Piece::Rook);
    assert_eq!(b.troops[0].unwrap().color, Color::Black);
    assert_eq!(b.troops[1].unwrap().piece, Piece::Knight);
    assert_eq!(b.troops[2].unwrap().piece, Piece::Bishop);
    assert_eq!(b.troops[3].unwrap().piece, Piece::Queen);
    assert_eq!(b.troops[4].unwrap().piece, Piece::King);
    // pawns and empty middle
    for f in 0..8 {
        assert_eq!(b.troops[8 + f].unwrap().piece, Piece::Pawn);
        assert_eq!(b.troops[8 + f].unwrap().color, Color::Black);
        assert_eq!(b.troops[48 + f].unwrap().piece, Piece::Pawn);
        assert_eq!(b.troops[48 + f].unwrap().color, Color::White);
    }
    for sq in 16..48 {
        assert!(b.troops[sq].is_none());
    }
    // white back rank
    assert_eq!(b.troops[60].unwrap().piece, Piece::King);
    assert_eq!(b.troops[60].unwrap().color, Color::White);
}

#[test]
fn starting_constructor_matches_decoded_fen() {
    let a = Board::starting();
    let b = Board::from_fen(START_FEN).unwrap();
    assert_eq!(a.turn, b.turn);
    assert_eq!(a.castling_rights, b.castling_rights);
    assert_eq!(a.en_passant_target, b.en_passant_target);
    assert_eq!(a.troops.len(), b.troops.len());
    for sq in 0..64 {
        assert_eq!(a.troops[sq], b.troops[sq]);
    }
}

#[test]
fn field_count_must_be_six() {
    assert_eq!(
        Board::from_fen("8/8/8/8/8/8/8/8 w KQkq -").unwrap_err(),
        FenError::FieldCount
    );
    assert_eq!(
        Board::from_fen("8/8/8/8/8/8/8/8 w KQkq - 0 1 extra").unwrap_err(),
        FenError::FieldCount
    );
    assert_eq!(Board::from_fen("").unwrap_err(), FenError::FieldCount);
}

#[test]
fn invalid_turn_letter_fails() {
    assert_eq!(
        Board::from_fen("8/8/8/8/8/8/8/8 x KQkq - 0 1").unwrap_err(),
        FenError::TurnField
    );
    // the turn field is checked before the placement field
    assert_eq!(
        Board::from_fen("zz x KQkq - 0 1").unwrap_err(),
        FenError::TurnField
    );
}

#[test]
fn seven_rows_fail_with_row_count() {
    assert_eq!(
        Board::from_fen("8/8/8/8/8/8/8 w KQkq - 0 1").unwrap_err(),
        FenError::RowCount
    );
}

#[test]
fn short_row_fails_naming_the_row() {
    assert_eq!(
        Board::from_fen("8/7/8/8/8/8/8/8 w KQkq - 0 1").unwrap_err(),
        FenError::RowWidth { row: 1 }
    );
    assert_eq!(
        Board::from_fen("8/8/8/8/8/8/8/ppppppppp w KQkq - 0 1").unwrap_err(),
        FenError::RowWidth { row: 7 }
    );
}

#[test]
fn bad_placement_character_is_named() {
    assert_eq!(
        Board::from_fen("z7/8/8/8/8/8/8/8 w KQkq - 0 1").unwrap_err(),
        FenError::BadCharacter { ch: 'z' }
    );
    assert_eq!(
        Board::from_fen("8/8/8/8/8/8/8/7x w KQkq - 0 1").unwrap_err(),
        FenError::BadCharacter { ch: 'x' }
    );
    assert_eq!(
        Board::from_fen("9/8/8/8/8/8/8/8 w KQkq - 0 1").unwrap_err(),
        FenError::BadCharacter { ch: '9' }
    );
}

#[test]
fn en_passant_field_errors() {
    assert_eq!(
        Board::from_fen("8/8/8/8/8/8/8/8 w - e 0 1").unwrap_err(),
        FenError::SquareTruncated { pos: 0 }
    );
    assert_eq!(
        Board::from_fen("8/8/8/8/8/8/8/8 w - ex 0 1").unwrap_err(),
        FenError::RankNotDigit { pos: 1 }
    );
    assert_eq!(
        Board::from_fen("8/8/8/8/8/8/8/8 w - e9 0 1").unwrap_err(),
        FenError::RankTooLarge { rank: 9 }
    );
    assert_eq!(
        Board::from_fen("8/8/8/8/8/8/8/8 w - e0 0 1").unwrap_err(),
        FenError::RankTooSmall { rank: 0 }
    );
    assert_eq!(
        Board::from_fen("8/8/8/8/8/8/8/8 w - i3 0 1").unwrap_err(),
        FenError::FileLetter { file: 'i' }
    );
    // the en-passant field is checked before the placement field
    assert_eq!(
        Board::from_fen("z8 w - e9 0 1").unwrap_err(),
        FenError::RankTooLarge { rank: 9 }
    );
}

#[test]
fn en_passant_square_is_decoded() {
    let b = Board::from_fen("8/8/8/8/8/8/8/8 w - e3 0 1").unwrap();
    // e3: file 4, rank 3 -> row 5 -> index 44
    assert_eq!(b.en_passant_target, Some(44));
    let b = Board::from_fen("8/8/8/8/8/8/8/8 b - d6 0 1").unwrap();
    // d6: file 3, rank 6 -> row 2 -> index 19
    assert_eq!(b.en_passant_target, Some(19));
}

#[test]
fn turn_field_sets_side_to_move() {
    let b = Board::from_fen("8/8/8/8/8/8/8/8 b - - 0 1").unwrap();
    assert_eq!(b.turn, Color::Black);
}

#[test]
fn castling_field_sets_each_right() {
    let b = Board::from_fen("8/8/8/8/8/8/8/8 w Kq - 0 1").unwrap();
    assert!(b.castling_rights.white_king_side);
    assert!(!b.castling_rights.white_queen_side);
    assert!(!b.castling_rights.black_king_side);
    assert!(b.castling_rights.black_queen_side);
    let b = Board::from_fen("8/8/8/8/8/8/8/8 w - - 0 1").unwrap();
    assert!(!b.castling_rights.white_king_side);
    assert!(!b.castling_rights.white_queen_side);
    assert!(!b.castling_rights.black_king_side);
    assert!(!b.castling_rights.black_queen_side);
    // extraneous characters are silently ignored
    let b = Board::from_fen("8/8/8/8/8/8/8/8 w XKZ - 0 1").unwrap();
    assert!(b.castling_rights.white_king_side);
    assert!(!b.castling_rights.white_queen_side);
    assert!(!b.castling_rights.black_king_side);
    assert!(!b.castling_rights.black_queen_side);
}

#[test]
fn square_to_index_maps_files_and_ranks() {
    assert_eq!(square_to_index(('a', 8)).unwrap(), 0);
    assert_eq!(square_to_index(('h', 8)).unwrap(), 7);
    assert_eq!(square_to_index(('a', 1)).unwrap(), 56);
    assert_eq!(square_to_index(('h', 1)).unwrap(), 63);
    assert_eq!(square_to_index(('e', 4)).unwrap(), 36);
    assert_eq!(
        square_to_index(('e', 9)).unwrap_err(),
        FenError::RankTooLarge { rank: 9 }
    );
    assert_eq!(
        square_to_index(('e', 0)).unwrap_err(),
        FenError::RankTooSmall { rank: 0 }
    );
    assert_eq!(
        square_to_index(('j', 5)).unwrap_err(),
        FenError::FileLetter { file: 'j' }
    );
}

#[test]
fn digits_expand_to_empty_squares() {
    let b = Board::from_fen("r3k2r/8/8/8/8/8/8/8 b - - 0 1").unwrap();
    assert_eq!(b.troops[0].unwrap().piece, Piece::Rook);
    for sq in 1..4 {
        assert!(b.troops[sq].is_none());
    }
    assert_eq!(b.troops[4].unwrap().piece, Piece::King);
    for sq in 5..7 {
        assert!(b.troops[sq].is_none());
    }
    assert_eq!(b.troops[7].unwrap().piece, Piece::Rook);
}
