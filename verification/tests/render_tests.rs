use chess_core::board::Board;
use chess_core::pieces::{Color, Piece, Troop};

const START_FEN: &str = "rnbqkbnr/pppppppp/8/8/8/8/PPPPPPPP/RNBQKBNR w KQkq - 0 1";

#[test]
fn starting_position_renders_the_expected_grid() {
    let b = Board::from_fen(START_FEN).unwrap();
    let expected = "|r|n|b|q|k|b|n|r|\n\
                    |p|p|p|p|p|p|p|p|\n\
                    | | | | | | | | |\n\
                    | | | | | | | | |\n\
                    | | | | | | | | |\n\
                    | | | | | | | | |\n\
                    |P|P|P|P|P|P|P|P|\n\
                    |R|N|B|Q|K|B|N|R|\n\
                    \nWhite to move\n (K) (Q) (k) (q)";
    assert_eq!(b.render(), expected);
}

#[test]
fn rendering_shows_turn_and_partial_castling_rights() {
    let b = Board::from_fen("8/8/8/8/8/8/8/8 b Kq - 0 1").unwrap();
    let expected = "| | | | | | | | |\n\
                    | | | | | | | | |\n\
                    | | | | | | | | |\n\
                    | | | | | | | | |\n\
                    | | | | | | | | |\n\
                    | | | | | | | | |\n\
                    | | | | | | | | |\n\
                    | | | | | | | | |\n\
                    \nBlack to move\n (K) (q)";
    assert_eq!(b.render(), expected);
}

#[test]
fn rendering_distinguishes_placement_turn_and_rights() {
    let a = Board::from_fen("8/8/8/3R4/8/8/8/8 w - - 0 1").unwrap();
    let b = Board::from_fen("8/8/8/3r4/8/8/8/8 w - - 0 1").unwrap();
    let c = Board::from_fen("8/8/8/3R4/8/8/8/8 b - - 0 1").unwrap();
    let d = Board::from_fen("8/8/8/3R4/8/8/8/8 w K - 0 1").unwrap();
    assert_ne!(a.render(), b.render());
    assert_ne!(a.render(), c.render());
    assert_ne!(a.render(), d.render());
    // rendering depends on the board state alone
    let again = Board::from_fen("8/8/8/3R4/8/8/8/8 w - - 0 1").unwrap();
    assert_eq!(a.render(), again.render());
    // the en-passant target is not rendered
    let e = Board::from_fen("8/8/8/3R4/8/8/8/8 w - e3 0 1").unwrap();
    assert_eq!(a.render(), e.render());
}

#[test]
fn troop_letters_are_case_by_color() {
    let wk = Troop { color: Color::White, piece: Piece::King };
    let bq = Troop { color: Color::Black, piece: Piece::Queen };
    let wn = Troop { color: Color::White, piece: Piece::Knight };
    let bp = Troop { color: Color::Black, piece: Piece::Pawn };
    assert_eq!(wk.letter(), 'K');
    assert_eq!(bq.letter(), 'q');
    assert_eq!(wn.letter(), 'N');
    assert_eq!(bp.letter(), 'p');
}

#[test]
fn troops_describe_themselves() {
    let wp = Troop { color: Color::White, piece: Piece::Pawn };
    let bb = Troop { color: Color::Black, piece: Piece::Bishop };
    assert_eq!(wp.describe(), "White Pawn");
    assert_eq!(bb.describe(), "Black Bishop");
    assert_eq!(Color::White.name(), "White");
    assert_eq!(Piece::Knight.name(), "Knight");
}

#[test]
fn colors_flip() {
    assert_eq!(Color::White.flip(), Color::Black);
    assert_eq!(Color::Black.flip(), Color::White);
}

#[test]
fn sliding_pieces_are_rook_bishop_queen() {
    assert!(Piece::Rook.is_sliding());
    assert!(Piece::Bishop.is_sliding());
    assert!(Piece::Queen.is_sliding());
    assert!(!Piece::King.is_sliding());
    assert!(!Piece::Knight.is_sliding());
    assert!(!Piece::Pawn.is_sliding());
}
