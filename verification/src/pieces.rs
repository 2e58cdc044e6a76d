//! Piece taxonomy: piece kinds, side colors, and troops (a colored piece
//! occupying a square).

use vstd::prelude::*;

verus! {

/// A kind of chess piece.
#[derive(Clone, Copy, PartialEq, Eq, Structural, Debug)]
pub enum Piece {
    King,
    Queen,
    Rook,
    Bishop,
    Knight,
    Pawn,
}

/// A side color.
#[derive(Clone, Copy, PartialEq, Eq, Structural, Debug)]
pub enum Color {
    Black,
    White,
}

/// A troop: an occupant of a board square.
#[derive(Clone, Copy, PartialEq, Eq, Structural, Debug)]
pub struct Troop {
    pub color: Color,
    pub piece: Piece,
}

/// The opposite of a color.
pub open spec fn spec_flip(c: Color) -> Color {
    match c {
        Color::Black => Color::White,
        Color::White => Color::Black,
    }
}

/// A piece whose moves extend along rays: rook, bishop or queen.
pub open spec fn spec_is_sliding(p: Piece) -> bool {
    p is Rook || p is Bishop || p is Queen
}

/// The English name of a piece.
pub open spec fn piece_name(p: Piece) -> Seq<char> {
    match p {
        Piece::King => seq!['K', 'i', 'n', 'g'],
        Piece::Queen => seq!['Q', 'u', 'e', 'e', 'n'],
        Piece::Rook => seq!['R', 'o', 'o', 'k'],
        Piece::Bishop => seq!['B', 'i', 's', 'h', 'o', 'p'],
        Piece::Knight => seq!['K', 'n', 'i', 'g', 'h', 't'],
        Piece::Pawn => seq!['P', 'a', 'w', 'n'],
    }
}

/// The English name of a color.
pub open spec fn color_name(c: Color) -> Seq<char> {
    match c {
        Color::Black => seq!['B', 'l', 'a', 'c', 'k'],
        Color::White => seq!['W', 'h', 'i', 't', 'e'],
    }
}

/// The one-letter code of a troop: k, q, r, b, n or p, uppercase for White.
pub open spec fn troop_letter(t: Troop) -> char {
    match t.color {
        Color::White => match t.piece {
            Piece::King => 'K',
            Piece::Queen => 'Q',
            Piece::Rook => 'R',
            Piece::Bishop => 'B',
            Piece::Knight => 'N',
            Piece::Pawn => 'P',
        },
        Color::Black => match t.piece {
            Piece::King => 'k',
            Piece::Queen => 'q',
            Piece::Rook => 'r',
            Piece::Bishop => 'b',
            Piece::Knight => 'n',
            Piece::Pawn => 'p',
        },
    }
}

impl Color {
    /// The opposite color: flips White to Black and Black to White.
    pub fn flip(self) -> (c: Color)
        ensures
            c == spec_flip(self),
    {
        match self {
            Color::Black => Color::White,
            Color::White => Color::Black,
        }
    }

    /// The English name of the color.
    pub fn name(self) -> (r: String)
        ensures
            r@ == color_name(self),
    {
        match self {
            Color::Black => {
                let r = String::from_str("Black");
                proof {
                    reveal_strlit("Black");
                    assert(r@ =~= color_name(self));
                }
                r
            },
            Color::White => {
                let r = String::from_str("White");
                proof {
                    reveal_strlit("White");
                    assert(r@ =~= color_name(self));
                }
                r
            },
        }
    }
}

impl Piece {
    /// Whether the piece is a sliding piece (rook, bishop or queen).
    pub fn is_sliding(self) -> (r: bool)
        ensures
            r == spec_is_sliding(self),
    {
        match self {
            Piece::Rook | Piece::Bishop | Piece::Queen => true,
            _ => false,
        }
    }

    /// The English name of the piece.
    pub fn name(self) -> (r: String)
        ensures
            r@ == piece_name(self),
    {
        let r = match self {
            Piece::King => String::from_str("King"),
            Piece::Queen => String::from_str("Queen"),
            Piece::Rook => String::from_str("Rook"),
            Piece::Bishop => String::from_str("Bishop"),
            Piece::Knight => String::from_str("Knight"),
            Piece::Pawn => String::from_str("Pawn"),
        };
        proof {
            reveal_strlit("King");
            reveal_strlit("Queen");
            reveal_strlit("Rook");
            reveal_strlit("Bishop");
            reveal_strlit("Knight");
            reveal_strlit("Pawn");
            assert(r@ =~= piece_name(self));
        }
        r
    }
}

impl Troop {
    /// The one-letter code of the troop, uppercase for White.
    pub fn letter(self) -> (c: char)
        ensures
            c == troop_letter(self),
    {
        match self.color {
            Color::White => match self.piece {
                Piece::King => 'K',
                Piece::Queen => 'Q',
                Piece::Rook => 'R',
                Piece::Bishop => 'B',
                Piece::Knight => 'N',
                Piece::Pawn => 'P',
            },
            Color::Black => match self.piece {
                Piece::King => 'k',
                Piece::Queen => 'q',
                Piece::Rook => 'r',
                Piece::Bishop => 'b',
                Piece::Knight => 'n',
                Piece::Pawn => 'p',
            },
        }
    }

    /// A readable description: the color's name, a space, the piece's name.
    pub fn describe(self) -> (r: String)
        ensures
            r@ == color_name(self.color) + seq![' '] + piece_name(self.piece),
    {
        let mut r = self.color.name();
        r.append(" ");
        let piece = self.piece.name();
        r.append(piece.as_str());
        proof {
            reveal_strlit(" ");
            assert(r@ =~= color_name(self.color) + seq![' '] + piece_name(self.piece));
        }
        r
    }
}

} // verus!
