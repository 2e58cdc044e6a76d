//! The board: occupancy grid, side to move, castling rights and en-passant
//! target, with its mathematical model and the standard starting position.

use vstd::prelude::*;
use crate::pieces::{Color, Piece, Troop};

verus! {

/// The four independent castling rights, as parsed from FEN.  This core
/// never revokes a right once parsed; bookkeeping on king or rook moves is
/// left to the caller.
#[derive(Clone, Copy, PartialEq, Eq, Structural, Debug)]
pub struct CastlingRights {
    pub white_king_side: bool,
    pub white_queen_side: bool,
    pub black_king_side: bool,
    pub black_queen_side: bool,
}

/// A chess position: 64 occupancy slots in row-major order (slot 0 is the
/// top left of the FEN row order), the side to move, the castling rights,
/// and the optional en-passant target square.
#[derive(Debug)]
pub struct Board {
    pub troops: Vec<Option<Troop>>,
    pub turn: Color,
    pub castling_rights: CastlingRights,
    pub en_passant_target: Option<usize>,
}

/// The mathematical model of a board.
#[verifier::ext_equal]
pub struct BoardModel {
    pub troops: Seq<Option<Troop>>,
    pub turn: Color,
    pub castling_rights: CastlingRights,
    pub en_passant_target: Option<int>,
}

impl BoardModel {
    /// A well-formed position: exactly 64 occupancy slots, and an en-passant
    /// target, when present, that lies on the board.
    pub open spec fn wf(self) -> bool {
        &&& self.troops.len() == 64
        &&& (self.en_passant_target matches Some(t) ==> 0 <= t < 64)
    }
}

impl View for Board {
    type V = BoardModel;

    open spec fn view(&self) -> BoardModel {
        BoardModel {
            troops: self.troops@,
            turn: self.turn,
            castling_rights: self.castling_rights,
            en_passant_target: match self.en_passant_target {
                Some(t) => Some(t as int),
                None => None,
            },
        }
    }
}

impl Board {
    /// A well-formed board: its model is well-formed.
    pub open spec fn wf(&self) -> bool {
        self@.wf()
    }
}

/// The occupant of a square in the standard starting position.
pub open spec fn starting_square(sq: int) -> Option<Troop> {
    let r = crate::geometry::rank_of(sq);
    if r == 0 {
        Some(Troop { color: Color::Black, piece: back_row_piece(crate::geometry::file_of(sq)) })
    } else if r == 1 {
        Some(Troop { color: Color::Black, piece: Piece::Pawn })
    } else if r == 6 {
        Some(Troop { color: Color::White, piece: Piece::Pawn })
    } else if r == 7 {
        Some(Troop { color: Color::White, piece: back_row_piece(crate::geometry::file_of(sq)) })
    } else {
        None
    }
}

/// The piece on a back row of the starting position, by file: rook, knight,
/// bishop, queen, king, bishop, knight, rook.
pub open spec fn back_row_piece(f: int) -> Piece {
    if f == 0 || f == 7 {
        Piece::Rook
    } else if f == 1 || f == 6 {
        Piece::Knight
    } else if f == 2 || f == 5 {
        Piece::Bishop
    } else if f == 3 {
        Piece::Queen
    } else {
        Piece::King
    }
}

/// The model of the standard starting position: the usual 32 troops, White
/// to move, all four castling rights, no en-passant target.
pub open spec fn starting_model() -> BoardModel {
    BoardModel {
        troops: Seq::new(64, |sq: int| starting_square(sq)),
        turn: Color::White,
        castling_rights: CastlingRights {
            white_king_side: true,
            white_queen_side: true,
            black_king_side: true,
            black_queen_side: true,
        },
        en_passant_target: None,
    }
}

/// The piece on a back row of the starting position, by file.
fn back_row_piece_at(f: usize) -> (p: Piece)
    requires
        f < 8,
    ensures
        p == back_row_piece(f as int),
{
    if f == 0 || f == 7 {
        Piece::Rook
    } else if f == 1 || f == 6 {
        Piece::Knight
    } else if f == 2 || f == 5 {
        Piece::Bishop
    } else if f == 3 {
        Piece::Queen
    } else {
        Piece::King
    }
}

impl Board {
    /// The standard starting position: the troops of the starting FEN
    /// `rnbqkbnr/pppppppp/8/8/8/8/PPPPPPPP/RNBQKBNR w KQkq - 0 1`,
    /// White to move, all four castling rights set, no en-passant target.
    pub fn starting() -> (b: Board)
        ensures
            b@ == starting_model(),
            b.wf(),
    {
        let mut troops: Vec<Option<Troop>> = Vec::new();
        for sq in 0..64usize
            invariant
                troops@.len() == sq,
                forall|i: int| 0 <= i < sq ==> troops@[i] == starting_square(i),
        {
            let r = sq / 8;
            let f = sq % 8;
            let occupant = if r == 0 {
                Some(Troop { color: Color::Black, piece: back_row_piece_at(f) })
            } else if r == 1 {
                Some(Troop { color: Color::Black, piece: Piece::Pawn })
            } else if r == 6 {
                Some(Troop { color: Color::White, piece: Piece::Pawn })
            } else if r == 7 {
                Some(Troop { color: Color::White, piece: back_row_piece_at(f) })
            } else {
                None
            };
            troops.push(occupant);
        }
        let b = Board {
            troops,
            turn: Color::White,
            castling_rights: CastlingRights {
                white_king_side: true,
                white_queen_side: true,
                black_king_side: true,
                black_queen_side: true,
            },
            en_passant_target: None,
        };
        proof {
            assert(b@.troops =~= starting_model().troops);
            assert(b@ =~= starting_model());
        }
        b
    }
}

} // verus!
