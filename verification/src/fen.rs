//! FEN decoding: parsing a 6-field Forsyth-Edwards Notation string into a
//! board, all-or-nothing, with a descriptive error for each way a string
//! can be malformed.

use vstd::prelude::*;
use crate::board::{Board, BoardModel, CastlingRights};
use crate::pieces::{Color, Piece, Troop};

verus! {

/// The ways FEN decoding fails.  Decoding is all-or-nothing: no partial
/// board escapes on an error.
#[derive(Clone, Copy, PartialEq, Eq, Structural, Debug)]
pub enum FenError {
    /// The string does not split into exactly 6 space-separated fields.
    FieldCount,
    /// The active-color field is neither `w` nor `b`.
    TurnField,
    /// An en-passant file letter has no rank character after it (the
    /// position of the file letter in the field).
    SquareTruncated { pos: usize },
    /// An en-passant rank character is not a digit (its position in the
    /// field).
    RankNotDigit { pos: usize },
    /// An en-passant rank is larger than 8.
    RankTooLarge { rank: u8 },
    /// An en-passant rank is smaller than 1.
    RankTooSmall { rank: u8 },
    /// An en-passant file letter is not one of `a`-`h`.
    FileLetter { file: char },
    /// The placement field does not split into exactly 8 rows.
    RowCount,
    /// A placement character is neither a piece letter nor a digit 1-8.
    BadCharacter { ch: char },
    /// A placement row does not expand to exactly 8 squares (its index).
    RowWidth { row: usize },
}

/// The file number of a file letter `a`-`h`, or -1 for any other character.
pub open spec fn file_index(file: char) -> int {
    if file == 'a' {
        0
    } else if file == 'b' {
        1
    } else if file == 'c' {
        2
    } else if file == 'd' {
        3
    } else if file == 'e' {
        4
    } else if file == 'f' {
        5
    } else if file == 'g' {
        6
    } else if file == 'h' {
        7
    } else {
        -1
    }
}

/// The row-major square index denoted by a file letter and a rank number
/// (rank 8 is row 0, rank 1 is row 7), or the error that rules the pair
/// out: a rank above 8, then a rank below 1, then a file letter outside
/// `a`-`h`.
pub open spec fn spec_square_index(file: char, rank: int) -> Result<int, FenError> {
    if rank > 8 {
        Err(FenError::RankTooLarge { rank: rank as u8 })
    } else if rank < 1 {
        Err(FenError::RankTooSmall { rank: rank as u8 })
    } else if file_index(file) < 0 {
        Err(FenError::FileLetter { file })
    } else {
        Ok(8 * (8 - rank) + file_index(file))
    }
}

/// Splitting a character sequence on a separator: one more segment than
/// there are separator occurrences, in order, each segment free of the
/// separator.  Defined from the right so that a left-to-right splitter
/// extends the last segment or opens a new one.
pub open spec fn split_on(s: Seq<char>, sep: char) -> Seq<Seq<char>>
    decreases s.len(),
{
    if s.len() == 0 {
        seq![Seq::<char>::empty()]
    } else {
        let prefix = split_on(s.drop_last(), sep);
        if s.last() == sep {
            prefix.push(Seq::<char>::empty())
        } else {
            prefix.update(prefix.len() - 1, prefix.last().push(s.last()))
        }
    }
}

/// Splitting yields at least one segment.
proof fn lemma_split_on_len(s: Seq<char>, sep: char)
    ensures
        split_on(s, sep).len() >= 1,
    decreases s.len(),
{
    if s.len() > 0 {
        lemma_split_on_len(s.drop_last(), sep);
    }
}

/// A decimal digit character.
pub open spec fn is_digit_char(c: char) -> bool {
    48 <= c as u32 <= 57
}

/// The value of a decimal digit character.
pub open spec fn digit_value(c: char) -> int {
    c as u32 - 48
}

/// The active color a turn field denotes: exactly `w` or `b`.
pub open spec fn spec_turn_field(f: Seq<char>) -> Result<Color, FenError> {
    if f == seq!['w'] {
        Ok(Color::White)
    } else if f == seq!['b'] {
        Ok(Color::Black)
    } else {
        Err(FenError::TurnField)
    }
}

/// The castling rights a castling field denotes: presence of each of `K`,
/// `Q`, `k`, `q` sets the corresponding right; all other characters
/// (including a literal `-`) are ignored.
pub open spec fn spec_castling_field(f: Seq<char>) -> CastlingRights {
    CastlingRights {
        white_king_side: f.contains('K'),
        white_queen_side: f.contains('Q'),
        black_king_side: f.contains('k'),
        black_queen_side: f.contains('q'),
    }
}

/// The en-passant field read from position `i` on, in file-letter/rank
/// pairs, the last pair winning; `found` carries the square of the pairs
/// already read.
pub open spec fn spec_ep_from(s: Seq<char>, i: int, found: Option<int>) -> Result<
    Option<int>,
    FenError,
>
    decreases s.len() - i,
{
    if i >= s.len() {
        Ok(found)
    } else if i + 1 >= s.len() {
        Err(FenError::SquareTruncated { pos: i as usize })
    } else if !is_digit_char(s[i + 1]) {
        Err(FenError::RankNotDigit { pos: (i + 1) as usize })
    } else {
        match spec_square_index(s[i], digit_value(s[i + 1])) {
            Ok(sq) => spec_ep_from(s, i + 2, Some(sq)),
            Err(e) => Err(e),
        }
    }
}

/// The en-passant target a field denotes: `-` means none; anything else is
/// read as file-letter/rank pairs.
pub open spec fn spec_ep_field(f: Seq<char>) -> Result<Option<int>, FenError> {
    if f == seq!['-'] {
        Ok(None)
    } else {
        spec_ep_from(f, 0, None)
    }
}

/// The troop a placement character denotes: the six piece letters, case
/// giving the color, and nothing else.
pub open spec fn piece_of_char(c: char) -> Option<Troop> {
    if c == 'K' {
        Some(Troop { color: Color::White, piece: Piece::King })
    } else if c == 'Q' {
        Some(Troop { color: Color::White, piece: Piece::Queen })
    } else if c == 'R' {
        Some(Troop { color: Color::White, piece: Piece::Rook })
    } else if c == 'B' {
        Some(Troop { color: Color::White, piece: Piece::Bishop })
    } else if c == 'N' {
        Some(Troop { color: Color::White, piece: Piece::Knight })
    } else if c == 'P' {
        Some(Troop { color: Color::White, piece: Piece::Pawn })
    } else if c == 'k' {
        Some(Troop { color: Color::Black, piece: Piece::King })
    } else if c == 'q' {
        Some(Troop { color: Color::Black, piece: Piece::Queen })
    } else if c == 'r' {
        Some(Troop { color: Color::Black, piece: Piece::Rook })
    } else if c == 'b' {
        Some(Troop { color: Color::Black, piece: Piece::Bishop })
    } else if c == 'n' {
        Some(Troop { color: Color::Black, piece: Piece::Knight })
    } else if c == 'p' {
        Some(Troop { color: Color::Black, piece: Piece::Pawn })
    } else {
        None
    }
}

/// A placement row read from position `i` on: each piece letter one
/// occupied square, each digit 1-8 that many empty squares, any other
/// character the error naming it.
pub open spec fn spec_row_from(row: Seq<char>, i: int) -> Result<Seq<Option<Troop>>, FenError>
    decreases row.len() - i,
{
    if i >= row.len() {
        Ok(Seq::<Option<Troop>>::empty())
    } else {
        let c = row[i];
        if piece_of_char(c) is Some {
            match spec_row_from(row, i + 1) {
                Ok(rest) => Ok(seq![piece_of_char(c)] + rest),
                Err(e) => Err(e),
            }
        } else if is_digit_char(c) && 1 <= digit_value(c) <= 8 {
            match spec_row_from(row, i + 1) {
                Ok(rest) => Ok(Seq::new(digit_value(c) as nat, |k: int| None::<Troop>) + rest),
                Err(e) => Err(e),
            }
        } else {
            Err(FenError::BadCharacter { ch: c })
        }
    }
}

/// The placement rows from index `i` on, each expanded to exactly 8
/// squares, concatenated in row order; a bad character is reported before
/// a bad width, and the first offending row wins.
pub open spec fn spec_rows_from(rows: Seq<Seq<char>>, i: int) -> Result<
    Seq<Option<Troop>>,
    FenError,
>
    decreases rows.len() - i,
{
    if i >= rows.len() {
        Ok(Seq::<Option<Troop>>::empty())
    } else {
        match spec_row_from(rows[i], 0) {
            Err(e) => Err(e),
            Ok(cells) => if cells.len() != 8 {
                Err(FenError::RowWidth { row: i as usize })
            } else {
                match spec_rows_from(rows, i + 1) {
                    Err(e) => Err(e),
                    Ok(rest) => Ok(cells + rest),
                }
            },
        }
    }
}

/// The board a FEN string denotes, or the error that rules it out.  The
/// fields are checked in the order the decoder reads them: field count,
/// then the turn field, then the en-passant field, then the placement
/// rows; the halfmove clock and fullmove number are accepted unexamined.
pub open spec fn spec_from_fen(s: Seq<char>) -> Result<BoardModel, FenError> {
    let fields = split_on(s, ' ');
    if fields.len() != 6 {
        Err(FenError::FieldCount)
    } else {
        match spec_turn_field(fields[1]) {
            Err(e) => Err(e),
            Ok(turn) => {
                let castling_rights = spec_castling_field(fields[2]);
                match spec_ep_field(fields[3]) {
                    Err(e) => Err(e),
                    Ok(en_passant_target) => {
                        let rows = split_on(fields[0], '/');
                        if rows.len() != 8 {
                            Err(FenError::RowCount)
                        } else {
                            match spec_rows_from(rows, 0) {
                                Err(e) => Err(e),
                                Ok(troops) => Ok(
                                    BoardModel { troops, turn, castling_rights, en_passant_target },
                                ),
                            }
                        }
                    },
                }
            },
        }
    }
}

/// The rows from index `i` on expand to eight squares each.
proof fn lemma_rows_len(rows: Seq<Seq<char>>, i: int)
    requires
        0 <= i <= rows.len(),
    ensures
        spec_rows_from(rows, i) matches Ok(ts) ==> ts.len() == 8 * (rows.len() - i),
    decreases rows.len() - i,
{
    if i < rows.len() {
        lemma_rows_len(rows, i + 1);
    }
}

/// An en-passant square read from the field lies on the board.
proof fn lemma_ep_in_range(s: Seq<char>, i: int, found: Option<int>)
    requires
        found matches Some(t) ==> 0 <= t < 64,
    ensures
        spec_ep_from(s, i, found) matches Ok(opt) ==> (opt matches Some(t) ==> 0 <= t < 64),
    decreases s.len() - i,
{
    if i < s.len() && i + 1 < s.len() && is_digit_char(s[i + 1]) {
        if let Ok(sq) = spec_square_index(s[i], digit_value(s[i + 1])) {
            lemma_ep_in_range(s, i + 2, Some(sq));
        }
    }
}

/// Every successfully decoded board is well-formed: exactly 64 occupancy
/// slots, and an en-passant target, when present, on the board.
pub proof fn lemma_decoded_model_wf(s: Seq<char>)
    requires
        spec_from_fen(s) is Ok,
    ensures
        spec_from_fen(s)->Ok_0.wf(),
{
    let fields = split_on(s, ' ');
    lemma_rows_len(split_on(fields[0], '/'), 0);
    if fields[3] != seq!['-'] {
        lemma_ep_in_range(fields[3], 0, None);
    }
}

/// The row-major square index of a file letter and a rank number: rank 8
/// maps to row 0, rank 1 to row 7.
pub fn square_to_index(square: (char, u8)) -> (r: Result<usize, FenError>)
    ensures
        match r {
            Ok(i) => i < 64 && spec_square_index(square.0, square.1 as int) == Ok::<int, FenError>(i as int),
            Err(e) => spec_square_index(square.0, square.1 as int) == Err::<int, FenError>(e),
        },
{
    let (file_c, rank) = square;
    if rank > 8 {
        return Err(FenError::RankTooLarge { rank });
    }
    if rank < 1 {
        return Err(FenError::RankTooSmall { rank });
    }
    let file: usize = match file_c {
        'a' => 0,
        'b' => 1,
        'c' => 2,
        'd' => 3,
        'e' => 4,
        'f' => 5,
        'g' => 6,
        'h' => 7,
        _ => {
            return Err(FenError::FileLetter { file: file_c });
        },
    };
    let row: usize = (8 - rank) as usize;
    Ok(8 * row + file)
}

/// The characters of a string, in order.
fn chars_of(s: &str) -> (r: Vec<char>)
    ensures
        r@ == s@,
{
    let n = s.unicode_len();
    let mut v: Vec<char> = Vec::new();
    for i in 0..n
        invariant
            n == s@.len(),
            v@ == s@.take(i as int),
    {
        let c = s.get_char(i);
        v.push(c);
        proof {
            assert(v@ =~= s@.take(i + 1));
        }
    }
    proof {
        assert(v@ =~= s@);
    }
    v
}

/// Splits a character sequence on a separator, left to right.
fn split_chars(v: &Vec<char>, sep: char) -> (r: Vec<Vec<char>>)
    ensures
        r@.len() == split_on(v@, sep).len(),
        forall|i: int| 0 <= i < r@.len() ==> #[trigger] r@[i]@ == split_on(v@, sep)[i],
{
    let mut done: Vec<Vec<char>> = Vec::new();
    let mut cur: Vec<char> = Vec::new();
    let n = v.len();
    for j in 0..n
        invariant
            n == v@.len(),
            done@.len() + 1 == split_on(v@.take(j as int), sep).len(),
            forall|i: int| 0 <= i < done@.len() ==> #[trigger] done@[i]@ == split_on(
                v@.take(j as int),
                sep,
            )[i],
            cur@ == split_on(v@.take(j as int), sep).last(),
    {
        proof {
            lemma_split_on_len(v@.take(j as int), sep);
            assert(v@.take(j + 1).drop_last() =~= v@.take(j as int));
            assert(v@.take(j + 1).last() == v@[j as int]);
        }
        let c = v[j];
        if c == sep {
            done.push(cur);
            cur = Vec::new();
        } else {
            cur.push(c);
        }
    }
    proof {
        assert(v@.take(n as int) =~= v@);
        lemma_split_on_len(v@, sep);
    }
    done.push(cur);
    done
}

/// Whether a character occurs in a sequence.
fn contains_char(v: &Vec<char>, c: char) -> (r: bool)
    ensures
        r == v@.contains(c),
{
    let n = v.len();
    for i in 0..n
        invariant
            n == v@.len(),
            forall|k: int| 0 <= k < i ==> v@[k] != c,
    {
        if v[i] == c {
            return true;
        }
    }
    proof {
        assert(!v@.contains(c)) by {
            if v@.contains(c) {
                let k = choose|k: int| 0 <= k < v@.len() && v@[k] == c;
            }
        }
    }
    false
}

/// The troop a placement character denotes, if any.
fn char_troop(c: char) -> (t: Option<Troop>)
    ensures
        t == piece_of_char(c),
{
    match c {
        'K' => Some(Troop { color: Color::White, piece: Piece::King }),
        'Q' => Some(Troop { color: Color::White, piece: Piece::Queen }),
        'R' => Some(Troop { color: Color::White, piece: Piece::Rook }),
        'B' => Some(Troop { color: Color::White, piece: Piece::Bishop }),
        'N' => Some(Troop { color: Color::White, piece: Piece::Knight }),
        'P' => Some(Troop { color: Color::White, piece: Piece::Pawn }),
        'k' => Some(Troop { color: Color::Black, piece: Piece::King }),
        'q' => Some(Troop { color: Color::Black, piece: Piece::Queen }),
        'r' => Some(Troop { color: Color::Black, piece: Piece::Rook }),
        'b' => Some(Troop { color: Color::Black, piece: Piece::Bishop }),
        'n' => Some(Troop { color: Color::Black, piece: Piece::Knight }),
        'p' => Some(Troop { color: Color::Black, piece: Piece::Pawn }),
        _ => None,
    }
}

/// Expands one placement row into its squares, left to right, stopping at
/// the first character that is neither a piece letter nor a digit 1-8.
#[verifier::loop_isolation(false)]
fn parse_row(row: &Vec<char>) -> (r: Result<Vec<Option<Troop>>, FenError>)
    ensures
        match r {
            Ok(cells) => spec_row_from(row@, 0) == Ok::<Seq<Option<Troop>>, FenError>(cells@),
            Err(e) => spec_row_from(row@, 0) == Err::<Seq<Option<Troop>>, FenError>(e),
        },
{
    let mut cells: Vec<Option<Troop>> = Vec::new();
    let n = row.len();
    let mut i: usize = 0;
    while i < n
        invariant
            n == row@.len(),
            i <= n,
            spec_row_from(row@, 0) == (match spec_row_from(row@, i as int) {
                Ok(rest) => Ok::<Seq<Option<Troop>>, FenError>(cells@ + rest),
                Err(e) => Err::<Seq<Option<Troop>>, FenError>(e),
            }),
        decreases n - i,
    {
        let c = row[i];
        let ghost prev = cells@;
        let ghost i0 = i as int;
        if let Some(t) = char_troop(c) {
            cells.push(Some(t));
            proof {
                if let Ok(rest) = spec_row_from(row@, i0 + 1) {
                    assert(prev + (seq![piece_of_char(c)] + rest) =~= cells@ + rest);
                }
            }
        } else {
            let u = c as u32;
            if 49 <= u && u <= 56 {
                let cnt: usize = (u - 48) as usize;
                let ghost blanks = Seq::new(digit_value(c) as nat, |k: int| None::<Troop>);
                for k in 0..cnt
                    invariant
                        cnt == blanks.len(),
                        cells@ == prev + blanks.take(k as int),
                {
                    cells.push(None);
                    proof {
                        assert(cells@ =~= prev + blanks.take(k + 1));
                    }
                }
                proof {
                    assert(blanks.take(cnt as int) =~= blanks);
                    if let Ok(rest) = spec_row_from(row@, i0 + 1) {
                        assert(prev + (blanks + rest) =~= cells@ + rest);
                    }
                }
            } else {
                proof {
                    assert(spec_row_from(row@, i0) == Err::<Seq<Option<Troop>>, FenError>(
                        FenError::BadCharacter { ch: c },
                    ));
                }
                return Err(FenError::BadCharacter { ch: c });
            }
        }
        i += 1;
    }
    proof {
        assert(cells@ + Seq::<Option<Troop>>::empty() =~= cells@);
    }
    Ok(cells)
}

impl Board {
    /// Decodes a 6-field FEN string into a board, or reports the first
    /// error in reading order: field count, then the turn field, then the
    /// en-passant field, then the placement rows.  The halfmove clock and
    /// fullmove number fields are accepted but not retained.
    #[verifier::loop_isolation(false)]
    pub fn from_fen(fen: &str) -> (r: Result<Board, FenError>)
        ensures
            match r {
                Ok(b) => b.wf() && spec_from_fen(fen@) == Ok::<BoardModel, FenError>(b@),
                Err(e) => spec_from_fen(fen@) == Err::<BoardModel, FenError>(e),
            },
    {
        let chars = chars_of(fen);
        let fields = split_chars(&chars, ' ');
        let ghost sfields = split_on(fen@, ' ');
        if fields.len() != 6 {
            return Err(FenError::FieldCount);
        }
        let tf = &fields[1];
        let turn: Color;
        if tf.len() == 1 && tf[0] == 'w' {
            turn = Color::White;
            proof {
                assert(sfields[1] =~= seq!['w']);
            }
        } else if tf.len() == 1 && tf[0] == 'b' {
            turn = Color::Black;
            proof {
                assert(sfields[1] =~= seq!['b']);
                assert(sfields[1] != seq!['w']);
            }
        } else {
            proof {
                assert(spec_turn_field(sfields[1]) == Err::<Color, FenError>(FenError::TurnField))
                    by {
                    if sfields[1] == seq!['w'] {
                        assert(tf@.len() == 1 && tf@[0] == 'w');
                    }
                    if sfields[1] == seq!['b'] {
                        assert(tf@.len() == 1 && tf@[0] == 'b');
                    }
                }
            }
            return Err(FenError::TurnField);
        }
        let cf = &fields[2];
        let castling_rights = CastlingRights {
            white_king_side: contains_char(cf, 'K'),
            white_queen_side: contains_char(cf, 'Q'),
            black_king_side: contains_char(cf, 'k'),
            black_queen_side: contains_char(cf, 'q'),
        };
        proof {
            assert(castling_rights == spec_castling_field(sfields[2]));
        }
        let ef = &fields[3];
        let mut en_passant_target: Option<usize> = None;
        if ef.len() == 1 && ef[0] == '-' {
            proof {
                assert(sfields[3] =~= seq!['-']);
            }
        } else {
            proof {
                assert(sfields[3] != seq!['-']) by {
                    if sfields[3] == seq!['-'] {
                        assert(ef@.len() == 1 && ef@[0] == '-');
                    }
                }
            }
            let en = ef.len();
            let mut i: usize = 0;
            while i < en
                invariant
                    en == ef@.len(),
                    i <= en + 1,
                    en_passant_target matches Some(t) ==> t < 64,
                    spec_ep_field(sfields[3]) == spec_ep_from(
                        ef@,
                        i as int,
                        match en_passant_target {
                            Some(t) => Some(t as int),
                            None => None,
                        },
                    ),
                decreases en - i,
            {
                if i + 1 >= en {
                    return Err(FenError::SquareTruncated { pos: i });
                }
                let rc = ef[i + 1];
                let u = rc as u32;
                if !(48 <= u && u <= 57) {
                    return Err(FenError::RankNotDigit { pos: i + 1 });
                }
                let rank: u8 = (u - 48) as u8;
                match square_to_index((ef[i], rank)) {
                    Ok(sq) => {
                        en_passant_target = Some(sq);
                    },
                    Err(e) => {
                        return Err(e);
                    },
                }
                i += 2;
            }
        }
        let rows = split_chars(&fields[0], '/');
        let ghost srows = split_on(sfields[0], '/');
        proof {
            assert(fields@[0]@ == sfields[0]);
            assert(rows@.len() == srows.len());
            assert(forall|k: int| 0 <= k < rows@.len() ==> #[trigger] rows@[k]@ == srows[k]);
        }
        if rows.len() != 8 {
            return Err(FenError::RowCount);
        }
        let mut troops: Vec<Option<Troop>> = Vec::new();
        for ri in 0..8usize
            invariant
                rows@.len() == 8,
                srows.len() == 8,
                forall|k: int| 0 <= k < 8 ==> #[trigger] rows@[k]@ == srows[k],
                troops@.len() == 8 * ri,
                spec_rows_from(srows, 0) == (match spec_rows_from(srows, ri as int) {
                    Ok(rest) => Ok::<Seq<Option<Troop>>, FenError>(troops@ + rest),
                    Err(e) => Err::<Seq<Option<Troop>>, FenError>(e),
                }),
        {
            let row = &rows[ri];
            let ghost prev = troops@;
            proof {
                assert(row@ == srows[ri as int]);
            }
            match parse_row(row) {
                Err(e) => {
                    return Err(e);
                },
                Ok(mut cells) => {
                    if cells.len() != 8 {
                        return Err(FenError::RowWidth { row: ri });
                    }
                    proof {
                        if let Ok(rest) = spec_rows_from(srows, ri + 1) {
                            assert(prev + (cells@ + rest) =~= (prev + cells@) + rest);
                        }
                    }
                    troops.append(&mut cells);
                },
            }
        }
        proof {
            assert(troops@ + Seq::<Option<Troop>>::empty() =~= troops@);
        }
        let b = Board { troops, turn, castling_rights, en_passant_target };
        proof {
            if let Ok(m) = spec_from_fen(fen@) {
                assert(b@ =~= m);
            }
        }
        Ok(b)
    }
}

} // verus!
