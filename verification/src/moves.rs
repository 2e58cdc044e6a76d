//! Pseudo-legal move generation: sliding pieces, knights and pawns.
//!
//! A move obeys the piece-movement rules and never captures a troop of the
//! mover's own color, but is not checked against leaving the mover's king in
//! check, and king moves and castling are not generated at all.

use vstd::prelude::*;
use crate::board::{Board, BoardModel};
use crate::geometry::{
    dir_offset, edge_distance, file_of, lemma_ray_step, lemma_ray_target_determines, lemma_square_decompose,
    lemma_square_delta, on_board, rank_of,
};
use crate::geometry::{direction_offset, squares_to_edge};
use crate::pieces::{Color, Piece};

verus! {

broadcast use vstd::seq_lib::lemma_seq_contains_after_push;

/// A candidate relocation of a troop, compared by structural equality.
/// Whether it is a capture, an en-passant capture or a double push must be
/// inferred by the caller from the board state.
#[derive(Clone, Copy, PartialEq, Eq, Structural, Debug)]
pub struct Move {
    pub start: usize,
    pub end: usize,
}

/// The directions a sliding piece may ray along: the rook the four
/// orthogonal directions, the bishop the four diagonal ones, the queen all
/// eight.
pub open spec fn sliding_direction(piece: Piece, d: int) -> bool {
    match piece {
        Piece::Rook => 0 <= d < 4,
        Piece::Bishop => 4 <= d < 8,
        Piece::Queen => 0 <= d < 8,
        _ => false,
    }
}

/// A ray hit: `m` travels `n` steps from `start` in direction `d`, within
/// the board, with every square strictly between start and end empty.  The
/// end square itself may be occupied by either side: a ray stops at the
/// first occupied square but still includes it as a raw candidate; a troop
/// of the mover's own color there is removed by the uniform same-color
/// filter, not here.
pub open spec fn sliding_ray_hit(b: BoardModel, piece: Piece, start: int, m: Move, d: int, n: int) -> bool {
    &&& m.start == start
    &&& sliding_direction(piece, d)
    &&& 1 <= n <= edge_distance(start, d)
    &&& m.end as int == ray_square(start, d, n)
    &&& forall|k: int| 1 <= k < n ==> b.troops[#[trigger] ray_square(start, d, k)] is None
}

/// The square reached after `k` steps from `start` in direction `d`.
pub open spec fn ray_square(start: int, d: int, k: int) -> int {
    start + k * dir_offset(d)
}

/// A raw sliding-piece candidate from `start`: a ray hit in some direction.
pub open spec fn sliding_candidate(b: BoardModel, piece: Piece, start: int, m: Move) -> bool {
    exists|d: int, n: int| sliding_ray_hit(b, piece, start, m, d, n)
}

/// A ray hit in a direction strictly below `d_hi` (used while the
/// directions are generated in order).
spec fn sliding_candidate_before(
    b: BoardModel,
    piece: Piece,
    start: int,
    m: Move,
    d_hi: int,
) -> bool {
    exists|d: int, n: int| d < d_hi && sliding_ray_hit(b, piece, start, m, d, n)
}

/// The destination holds a troop of the side to move.
pub open spec fn own_color_at(b: BoardModel, e: int) -> bool {
    b.troops[e] matches Some(t) && t.color == b.turn
}

/// The index offset of a pawn's forward push: White moves toward decreasing
/// indices, Black toward increasing ones.
pub open spec fn pawn_forward_offset(c: Color) -> int {
    if c is White {
        -8
    } else {
        8
    }
}

/// The rank a side's pawns start on: 6 for White, 1 for Black.
pub open spec fn pawn_start_rank(c: Color) -> int {
    if c is White {
        6
    } else {
        1
    }
}

/// The two forward-diagonal index offsets of a side's pawns.  Destinations
/// are filtered by board range only, as the one legality filter on raw pawn
/// destinations: a diagonal that crosses the left or right board edge onto
/// the neighbouring row is not excluded here.
pub open spec fn pawn_diagonal_square(c: Color, start: int, e: int) -> bool {
    if c is White {
        e == start - 9 || e == start - 7
    } else {
        e == start + 9 || e == start + 7
    }
}

/// A raw pawn candidate from `start` for the side to move: the single push
/// to the empty square directly ahead; the double push from the side's
/// starting rank when both squares ahead are empty; and the two
/// forward-diagonal squares when occupied by any troop or equal to the
/// en-passant target.  All destinations must lie on the board.
pub open spec fn pawn_candidate(b: BoardModel, start: int, m: Move) -> bool {
    let fwd = pawn_forward_offset(b.turn);
    let e = m.end as int;
    &&& m.start == start
    &&& {
        ||| (e == start + fwd && on_board(e) && b.troops[e] is None)
        ||| (e == start + 2 * fwd && rank_of(start) == pawn_start_rank(b.turn)
            && on_board(start + fwd) && b.troops[start + fwd] is None && on_board(e)
            && b.troops[e] is None)
        ||| (pawn_diagonal_square(b.turn, start, e) && on_board(e) && (b.troops[e] is Some
            || b.en_passant_target == Some(e)))
    }
}

/// The rank and file deltas of a knight jump: two squares along one axis
/// and one along the other.
pub open spec fn knight_delta(dr: int, dc: int) -> bool {
    ||| ((dr == 2 || dr == -2) && (dc == 1 || dc == -1))
    ||| ((dr == 1 || dr == -1) && (dc == 2 || dc == -2))
}

/// A raw knight candidate from `start`: a destination on the board whose
/// rank and file deltas form a knight jump, so that jumps that would wrap
/// around a board edge are excluded.
pub open spec fn knight_candidate(b: BoardModel, start: int, m: Move) -> bool {
    &&& m.start == start
    &&& on_board(m.end as int)
    &&& knight_delta(
        rank_of(m.end as int) - rank_of(start),
        file_of(m.end as int) - file_of(start),
    )
}

/// A knight jump by `(dr, dc)` from `start` that stays on the board and
/// does not land on a troop of the side to move.
spec fn knight_move_allowed(b: BoardModel, start: int, dr: int, dc: int) -> bool {
    &&& 0 <= rank_of(start) + dr < 8
    &&& 0 <= file_of(start) + dc < 8
    &&& !own_color_at(b, start + 8 * dr + dc)
}

/// A raw candidate of the troop standing on `start`, which must belong to
/// the side to move: sliding pieces ray, knights jump, pawns push and
/// capture, and king moves are not generated at all.
pub open spec fn troop_candidate(b: BoardModel, start: int, m: Move) -> bool {
    &&& 0 <= start < 64
    &&& b.troops[start] matches Some(t) && t.color == b.turn && (match t.piece {
        Piece::Rook | Piece::Bishop | Piece::Queen => sliding_candidate(b, t.piece, start, m),
        Piece::Knight => knight_candidate(b, start, m) && !own_color_at(b, m.end as int),
        Piece::Pawn => pawn_candidate(b, start, m),
        Piece::King => false,
    })
}

/// A pseudo-legal move for the side to move: a raw candidate of the troop
/// on its start square whose destination does not hold a troop of the
/// mover's own color.  Moves that would leave the mover's king in check are
/// not excluded.
pub open spec fn pseudo_legal(b: BoardModel, m: Move) -> bool {
    &&& troop_candidate(b, m.start as int, m)
    &&& !own_color_at(b, m.end as int)
}

/// The destination of any raw candidate lies on the board, and its start is
/// the square the candidate was generated from.
pub proof fn lemma_candidate_end_on_board(b: BoardModel, start: int, m: Move)
    requires
        b.wf(),
        troop_candidate(b, start, m),
    ensures
        on_board(m.end as int),
        m.start == start,
{
    match b.troops[start] {
        Some(t) => {
            match t.piece {
                Piece::Rook | Piece::Bishop | Piece::Queen => {
                    let (d, n): (int, int) = choose|d: int, n: int|
                        sliding_ray_hit(b, t.piece, start, m, d, n);
                    lemma_ray_step(start, d, n);
                },
                _ => {},
            }
        },
        None => {},
    }
}

/// Sequence membership distributes over concatenation.
proof fn lemma_contains_concat<A>(a: Seq<A>, b: Seq<A>, x: A)
    ensures
        (a + b).contains(x) <==> a.contains(x) || b.contains(x),
{
    if a.contains(x) {
        let i = choose|i: int| 0 <= i < a.len() && a[i] == x;
        assert((a + b)[i] == x);
    }
    if b.contains(x) {
        let i = choose|i: int| 0 <= i < b.len() && b[i] == x;
        assert((a + b)[a.len() + i] == x);
    }
    if (a + b).contains(x) {
        let i = choose|i: int| 0 <= i < (a + b).len() && (a + b)[i] == x;
        if i < a.len() {
            assert(a[i] == x);
        } else {
            assert(b[i - a.len()] == x);
        }
    }
}

/// Concatenating two duplicate-free sequences with no common element gives
/// a duplicate-free sequence.
proof fn lemma_no_duplicates_concat<A>(a: Seq<A>, b: Seq<A>)
    requires
        a.no_duplicates(),
        b.no_duplicates(),
        forall|x: A| !(#[trigger] a.contains(x) && b.contains(x)),
    ensures
        (a + b).no_duplicates(),
{
    let c = a + b;
    assert forall|i: int, j: int|
        0 <= i < c.len() && 0 <= j < c.len() && i != j implies c[i] != c[j] by {
        if i < a.len() && j < a.len() {
            assert(a[i] == c[i] && a[j] == c[j]);
        } else if i >= a.len() && j >= a.len() {
            assert(b[i - a.len()] == c[i] && b[j - a.len()] == c[j]);
        } else if i < a.len() {
            assert(a.contains(c[i]) && b.contains(c[j]));
        } else {
            assert(b.contains(c[i]) && a.contains(c[j]));
        }
    }
}

/// Pushing an element not already present keeps a sequence free of
/// duplicates.
proof fn lemma_push_no_duplicates<A>(s: Seq<A>, x: A)
    requires
        s.no_duplicates(),
        !s.contains(x),
    ensures
        s.push(x).no_duplicates(),
{
    let t = s.push(x);
    assert forall|i: int, j: int|
        0 <= i < t.len() && 0 <= j < t.len() && i != j implies t[i] != t[j] by {
        if i < s.len() && j < s.len() {
            assert(s[i] == t[i] && s[j] == t[j]);
        } else if i < s.len() {
            assert(s.contains(s[i]));
        } else if j < s.len() {
            assert(s.contains(s[j]));
        }
    }
}

impl Board {
    /// The raw ray moves of a sliding piece standing on `start`: for each of
    /// the piece's directions, every square along the ray up to and
    /// including the first occupied one, bounded by the board edge.
    #[verifier::loop_isolation(false)]
    pub fn generate_sliding_moves(&self, start: usize, piece: Piece) -> (r: Vec<Move>)
        requires
            self.wf(),
            start < 64,
            crate::pieces::spec_is_sliding(piece),
        ensures
            forall|m: Move| #[trigger] r@.contains(m) <==> sliding_candidate(self@, piece, start as int, m),
            r@.no_duplicates(),
    {
        let mut moves: Vec<Move> = Vec::new();
        let start_direction: usize = if matches!(piece, Piece::Bishop) {
            4
        } else {
            0
        };
        let end_direction: usize = if matches!(piece, Piece::Rook) {
            4
        } else {
            8
        };
        proof {
            assert forall|m: Move| moves@.contains(m)
                <==> sliding_candidate_before(self@, piece, start as int, m, start_direction as int) by {
                assert(!moves@.contains(m));
            }
        }
        for d in start_direction..end_direction
            invariant
                forall|m: Move| #[trigger] moves@.contains(m)
                    <==> sliding_candidate_before(self@, piece, start as int, m, d as int),
                moves@.no_duplicates(),
        {
            let edge = squares_to_edge(start, d);
            let off = direction_offset(d);
            let mut n: u8 = 0;
            #[verifier::loop_isolation(true)]
            while n < edge
                invariant_except_break
                    self.wf(),
                    start < 64,
                    d < 8,
                    sliding_direction(piece, d as int),
                    edge as int == edge_distance(start as int, d as int),
                    off as int == dir_offset(d as int),
                    n <= edge,
                    forall|k: int| 1 <= k <= n ==> self@.troops[#[trigger] ray_square(start as int, d as int, k)] is None,
                    forall|m: Move| #[trigger] moves@.contains(m)
                        <==> sliding_candidate_before(self@, piece, start as int, m, d as int)
                            || (exists|n2: int| 1 <= n2 <= n as int
                                && sliding_ray_hit(self@, piece, start as int, m, d as int, n2)),
                    moves@.no_duplicates(),
                ensures
                    forall|m: Move| #[trigger] moves@.contains(m)
                        <==> sliding_candidate_before(self@, piece, start as int, m, d as int)
                            || (exists|n2: int| sliding_ray_hit(self@, piece, start as int, m, d as int, n2)),
                    moves@.no_duplicates(),
                decreases edge - n,
            {
                proof {
                    lemma_ray_step(start as int, d as int, n as int + 1);
                }
                let step: i32 = n as i32 + 1;
                proof {
                    assert(edge_distance(start as int, d as int) <= 7);
                    assert(-9 <= off as int <= 9);
                    assert(-72 <= off as int * step as int <= 72) by (nonlinear_arith)
                        requires
                            -9 <= off as int <= 9,
                            1 <= step as int <= 8,
                    ;
                }
                let target_i: i32 = start as i32 + (off as i32) * step;
                let target: usize = target_i as usize;
                let mv = Move { start, end: target };
                proof {
                    assert(sliding_ray_hit(self@, piece, start as int, mv, d as int, n as int + 1));
                    assert(!moves@.contains(mv)) by {
                        if moves@.contains(mv) {
                            let (d2, n2): (int, int) = choose|d2: int, n2: int|
                                (d2 < d as int || (d2 == d as int && n2 <= n as int))
                                    && sliding_ray_hit(self@, piece, start as int, mv, d2, n2);
                            assert(sliding_ray_hit(self@, piece, start as int, mv, d2, n2));
                            lemma_ray_target_determines(start as int, d2, n2, d as int, n as int + 1);
                        }
                    }
                }
                moves.push(mv);
                if self.troops[target].is_some() {
                    proof {
                        assert forall|m: Move| #[trigger] moves@.contains(m)
                            <==> sliding_candidate_before(self@, piece, start as int, m, d as int)
                                || (exists|n2: int|
                                    sliding_ray_hit(self@, piece, start as int, m, d as int, n2)) by {
                            if exists|n2: int| sliding_ray_hit(self@, piece, start as int, m, d as int, n2) {
                                let n2 = choose|n2: int|
                                    sliding_ray_hit(self@, piece, start as int, m, d as int, n2);
                                if n2 > n as int + 1 {
                                    assert(self@.troops[ray_square(start as int, d as int, n as int + 1)] is None);
                                }
                            }
                        }
                    }
                    break;
                }
                n += 1;
            }
            proof {
                assert forall|m: Move| #[trigger] moves@.contains(m)
                    <==> sliding_candidate_before(self@, piece, start as int, m, d as int + 1) by {
                    if sliding_candidate_before(self@, piece, start as int, m, d as int + 1) {
                        let (d2, n2): (int, int) = choose|d2: int, n2: int| d2 < d as int + 1
                            && sliding_ray_hit(self@, piece, start as int, m, d2, n2);
                        if d2 == d as int {
                            assert(exists|n3: int|
                                sliding_ray_hit(self@, piece, start as int, m, d as int, n3));
                        } else {
                            assert(sliding_candidate_before(self@, piece, start as int, m, d as int));
                        }
                    }
                }
            }
        }
        proof {
            assert forall|m: Move| #[trigger] moves@.contains(m)
                <==> sliding_candidate(self@, piece, start as int, m) by {
                if sliding_candidate(self@, piece, start as int, m) {
                    let (d2, n2): (int, int) = choose|d2: int, n2: int|
                        sliding_ray_hit(self@, piece, start as int, m, d2, n2);
                    assert(d2 < end_direction as int);
                }
            }
        }
        moves
    }

    /// The raw pawn moves of a pawn standing on `start`, for the side to
    /// move: single push, double push from the starting rank, and the two
    /// forward diagonals on capture or en-passant, all within the board.
    pub fn generate_pawn_moves(&self, start: usize) -> (r: Vec<Move>)
        requires
            self.wf(),
            start < 64,
        ensures
            forall|m: Move| #[trigger] r@.contains(m) <==> pawn_candidate(self@, start as int, m),
            r@.no_duplicates(),
    {
        let mut moves: Vec<Move> = Vec::new();
        let white = matches!(self.turn, Color::White);
        let fwd: i32 = if white {
            -8
        } else {
            8
        };
        let single: i32 = start as i32 + fwd;
        if 0 <= single && single < 64 {
            if self.troops[single as usize].is_none() {
                moves.push(Move { start, end: single as usize });
                let on_start_rank = if white {
                    start / 8 == 6
                } else {
                    start / 8 == 1
                };
                if on_start_rank {
                    let double: i32 = start as i32 + 2 * fwd;
                    if self.troops[double as usize].is_none() {
                        let mv = Move { start, end: double as usize };
                        proof {
                            lemma_push_no_duplicates(moves@, mv);
                        }
                        moves.push(mv);
                    }
                }
            }
        }
        let diag_a: i32 = start as i32 + (if white {
            -9
        } else {
            9
        });
        let diag_b: i32 = start as i32 + (if white {
            -7
        } else {
            7
        });
        if 0 <= diag_a && diag_a < 64 {
            let e = diag_a as usize;
            let occupied = self.troops[e].is_some();
            let ep = match self.en_passant_target {
                Some(t) => t == e,
                None => false,
            };
            if occupied || ep {
                let mv = Move { start, end: e };
                proof {
                    lemma_push_no_duplicates(moves@, mv);
                }
                moves.push(mv);
            }
        }
        if 0 <= diag_b && diag_b < 64 {
            let e = diag_b as usize;
            let occupied = self.troops[e].is_some();
            let ep = match self.en_passant_target {
                Some(t) => t == e,
                None => false,
            };
            if occupied || ep {
                let mv = Move { start, end: e };
                proof {
                    lemma_push_no_duplicates(moves@, mv);
                }
                moves.push(mv);
            }
        }
        proof {
            assert forall|m: Move| #[trigger] moves@.contains(m)
                <==> pawn_candidate(self@, start as int, m) by {}
        }
        moves
    }

    /// Pushes the knight jump from `start` by `(dr, dc)` when it stays on
    /// the board and does not land on a troop of the side to move.
    fn push_knight_move(&self, moves: &mut Vec<Move>, start: usize, dr: i32, dc: i32)
        requires
            self.wf(),
            start < 64,
            knight_delta(dr as int, dc as int),
        ensures
            ({
                let e = start as int + 8 * dr + dc;
                let mv = (Move { start, end: e as usize });
                let allowed = knight_move_allowed(self@, start as int, dr as int, dc as int);
                &&& (forall|m: Move| #[trigger] final(moves)@.contains(m) <==> (old(
                    moves,
                )@.contains(m) || (allowed && m == mv)))
                &&& ((old(moves)@.no_duplicates() && (forall|m: Move| old(moves)@.contains(m)
                    ==> m.end as int != e)) ==> final(moves)@.no_duplicates())
            }),
    {
        let r: i32 = (start / 8) as i32;
        let f: i32 = (start % 8) as i32;
        if 0 <= r + dr && r + dr < 8 && 0 <= f + dc && f + dc < 8 {
            proof {
                lemma_square_delta(start as int, dr as int, dc as int);
            }
            let e_i: i32 = start as i32 + 8 * dr + dc;
            let e = e_i as usize;
            let own = match self.troops[e] {
                Some(t) => t.color == self.turn,
                None => false,
            };
            if !own {
                let mv = Move { start, end: e };
                proof {
                    if moves@.no_duplicates() && (forall|m: Move| moves@.contains(m)
                        ==> m.end as int != e_i as int) {
                        assert(!moves@.contains(mv));
                        lemma_push_no_duplicates(moves@, mv);
                    }
                }
                moves.push(mv);
            }
        }
    }

    /// The knight moves of a knight standing on `start`, for the side to
    /// move: the eight L-shaped jumps, each validated against the board
    /// edges on both axes, excluding destinations held by the mover's own
    /// color.
    pub fn generate_knight_moves(&self, start: usize) -> (r: Vec<Move>)
        requires
            self.wf(),
            start < 64,
        ensures
            forall|m: Move| #[trigger] r@.contains(m) <==> (knight_candidate(self@, start as int, m)
                && !own_color_at(self@, m.end as int)),
            r@.no_duplicates(),
    {
        let mut moves: Vec<Move> = Vec::new();
        let s = start;
        proof {
            lemma_square_decompose(start as int);
            let r0 = rank_of(start as int);
            let f0 = file_of(start as int);
            if 0 <= r0 - 2 && 0 <= f0 - 1 {
                lemma_square_delta(start as int, -2, -1);
            }
            if 0 <= r0 - 2 && f0 + 1 < 8 {
                lemma_square_delta(start as int, -2, 1);
            }
            if r0 + 2 < 8 && 0 <= f0 - 1 {
                lemma_square_delta(start as int, 2, -1);
            }
            if r0 + 2 < 8 && f0 + 1 < 8 {
                lemma_square_delta(start as int, 2, 1);
            }
            if 0 <= r0 - 1 && 0 <= f0 - 2 {
                lemma_square_delta(start as int, -1, -2);
            }
            if r0 + 1 < 8 && 0 <= f0 - 2 {
                lemma_square_delta(start as int, 1, -2);
            }
            if 0 <= r0 - 1 && f0 + 2 < 8 {
                lemma_square_delta(start as int, -1, 2);
            }
            if r0 + 1 < 8 && f0 + 2 < 8 {
                lemma_square_delta(start as int, 1, 2);
            }
        }
        self.push_knight_move(&mut moves, start, -2, -1);
        proof {
            assert(forall|m: Move| #[trigger] moves@.contains(m) ==> m.start == s
                && (m.end as int == s as int - 17));
            assert(moves@.no_duplicates());
        }
        self.push_knight_move(&mut moves, start, -2, 1);
        proof {
            assert(forall|m: Move| #[trigger] moves@.contains(m) ==> m.start == s
                && (m.end as int == s as int - 17 || m.end as int == s as int - 15));
            assert(moves@.no_duplicates());
        }
        self.push_knight_move(&mut moves, start, 2, -1);
        proof {
            assert(forall|m: Move| #[trigger] moves@.contains(m) ==> m.start == s
                && (m.end as int == s as int - 17 || m.end as int == s as int - 15
                || m.end as int == s as int + 15));
            assert(moves@.no_duplicates());
        }
        self.push_knight_move(&mut moves, start, 2, 1);
        proof {
            assert(forall|m: Move| #[trigger] moves@.contains(m) ==> m.start == s
                && (m.end as int == s as int - 17 || m.end as int == s as int - 15
                || m.end as int == s as int + 15 || m.end as int == s as int + 17));
            assert(moves@.no_duplicates());
        }
        self.push_knight_move(&mut moves, start, -1, -2);
        proof {
            assert(forall|m: Move| #[trigger] moves@.contains(m) ==> m.start == s
                && (m.end as int == s as int - 17 || m.end as int == s as int - 15
                || m.end as int == s as int + 15 || m.end as int == s as int + 17
                || m.end as int == s as int - 10));
            assert(moves@.no_duplicates());
        }
        self.push_knight_move(&mut moves, start, 1, -2);
        proof {
            assert(forall|m: Move| #[trigger] moves@.contains(m) ==> m.start == s
                && (m.end as int == s as int - 17 || m.end as int == s as int - 15
                || m.end as int == s as int + 15 || m.end as int == s as int + 17
                || m.end as int == s as int - 10 || m.end as int == s as int + 6));
            assert(moves@.no_duplicates());
        }
        self.push_knight_move(&mut moves, start, -1, 2);
        proof {
            assert(forall|m: Move| #[trigger] moves@.contains(m) ==> m.start == s
                && (m.end as int == s as int - 17 || m.end as int == s as int - 15
                || m.end as int == s as int + 15 || m.end as int == s as int + 17
                || m.end as int == s as int - 10 || m.end as int == s as int + 6
                || m.end as int == s as int - 6));
            assert(moves@.no_duplicates());
        }
        self.push_knight_move(&mut moves, start, 1, 2);
        proof {
            assert(moves@.no_duplicates());
            assert forall|m: Move| #[trigger] moves@.contains(m) implies (knight_candidate(
                self@,
                start as int,
                m,
            ) && !own_color_at(self@, m.end as int)) by {}
            assert forall|m: Move| knight_candidate(self@, start as int, m) && !own_color_at(
                self@,
                m.end as int,
            ) implies #[trigger] moves@.contains(m) by {
                lemma_square_decompose(m.end as int);
            }
        }
        moves
    }

    /// The complete pseudo-legal move list for the side to move: every
    /// occupied square of the mover's color is dispatched by piece kind, and
    /// a uniform filter then discards every move whose destination holds a
    /// troop of the mover's own color.  The list is unordered and free of
    /// duplicates; a fresh list is produced on every call from the board
    /// state alone.
    #[verifier::loop_isolation(false)]
    pub fn moves(&self) -> (r: Vec<Move>)
        requires
            self.wf(),
        ensures
            forall|m: Move| #[trigger] r@.contains(m) <==> pseudo_legal(self@, m),
            r@.no_duplicates(),
    {
        let mut all: Vec<Move> = Vec::new();
        for i in 0..64usize
            invariant
                forall|m: Move| #[trigger] all@.contains(m) <==> (m.start < i && troop_candidate(
                    self@,
                    m.start as int,
                    m,
                )),
                all@.no_duplicates(),
        {
            let slot = self.troops[i];
            let mut dispatched = false;
            if let Some(troop) = slot {
                if troop.color == self.turn {
                    let mut batch: Vec<Move> = match troop.piece {
                        Piece::Rook | Piece::Bishop | Piece::Queen => self.generate_sliding_moves(
                            i,
                            troop.piece,
                        ),
                        Piece::Pawn => self.generate_pawn_moves(i),
                        Piece::Knight => self.generate_knight_moves(i),
                        Piece::King => Vec::new(),
                    };
                    dispatched = true;
                    let ghost prev = all@;
                    let ghost batch_view = batch@;
                    proof {
                        assert(forall|m: Move| #[trigger] batch_view.contains(m) <==> (m.start == i
                            && troop_candidate(self@, m.start as int, m)));
                        assert forall|x: Move| !(#[trigger] prev.contains(x)
                            && batch_view.contains(x)) by {}
                        lemma_no_duplicates_concat(prev, batch_view);
                    }
                    all.append(&mut batch);
                    proof {
                        assert forall|m: Move| #[trigger] all@.contains(m) <==> (m.start < i + 1
                            && troop_candidate(self@, m.start as int, m)) by {
                            lemma_contains_concat(prev, batch_view, m);
                        }
                    }
                }
            }
            proof {
                if !dispatched {
                    assert forall|m: Move| #[trigger] all@.contains(m) <==> (m.start < i + 1
                        && troop_candidate(self@, m.start as int, m)) by {}
                }
            }
        }
        let mut r: Vec<Move> = Vec::new();
        let total = all.len();
        for j in 0..total
            invariant
                forall|m: Move| #[trigger] r@.contains(m) <==> (all@.take(j as int).contains(m)
                    && !own_color_at(self@, m.end as int)),
                r@.no_duplicates(),
        {
            let mv = all[j];
            proof {
                assert(all@.contains(all@[j as int]));
                lemma_candidate_end_on_board(self@, mv.start as int, mv);
            }
            let own = match self.troops[mv.end] {
                Some(t) => t.color == self.turn,
                None => false,
            };
            if !own {
                proof {
                    assert(!r@.contains(mv)) by {
                        if all@.take(j as int).contains(mv) {
                            let jj = choose|jj: int| 0 <= jj < j && all@.take(j as int)[jj] == mv;
                            assert(all@[jj] == mv);
                        }
                    }
                    lemma_push_no_duplicates(r@, mv);
                }
                r.push(mv);
            }
            proof {
                assert(all@.take(j + 1) =~= all@.take(j as int).push(all@[j as int]));
            }
        }
        proof {
            assert(all@.take(total as int) =~= all@);
        }
        r
    }
}

/// Law: generation is a pure read of the board: any two move lists whose
/// members are exactly the pseudo-legal moves of one board - as two calls
/// of the generator on the same unmutated board produce - are equal as
/// sets, whatever their order.
pub proof fn lemma_moves_same_set(b: BoardModel, r1: Seq<Move>, r2: Seq<Move>)
    requires
        forall|m: Move| #[trigger] r1.contains(m) <==> pseudo_legal(b, m),
        forall|m: Move| #[trigger] r2.contains(m) <==> pseudo_legal(b, m),
    ensures
        r1.to_set() == r2.to_set(),
{
    assert(r1.to_set() =~= r2.to_set());
}

/// Law: a ray does not pass over an occupied square: when some square
/// strictly before step `n` of a sliding ray is occupied, the move to step
/// `n` is not pseudo-legal.
pub proof fn lemma_ray_stops_at_first_occupied(b: BoardModel, start: int, d: int, n: int, k: int)
    requires
        b.wf(),
        on_board(start),
        b.troops[start] matches Some(t) && crate::pieces::spec_is_sliding(t.piece) && t.color
            == b.turn,
        1 <= k < n <= edge_distance(start, d),
        0 <= d < 8,
        b.troops[ray_square(start, d, k)] is Some,
    ensures
        !pseudo_legal(b, (Move { start: start as usize, end: ray_square(start, d, n) as usize })),
{
    lemma_ray_step(start, d, n);
    let mv = Move { start: start as usize, end: ray_square(start, d, n) as usize };
    if pseudo_legal(b, mv) {
        let t = b.troops[start]->Some_0;
        let (d2, n2): (int, int) = choose|d2: int, n2: int|
            sliding_ray_hit(b, t.piece, start, mv, d2, n2);
        lemma_ray_target_determines(start, d2, n2, d, n);
        assert(b.troops[ray_square(start, d, k)] is None);
    }
}

/// Law: the first occupied square of a ray is included as a raw candidate,
/// and the move onto it is pseudo-legal exactly when the troop there
/// belongs to the opposing color.
pub proof fn lemma_ray_first_occupied_is_capture(b: BoardModel, start: int, d: int, n: int)
    requires
        b.wf(),
        on_board(start),
        b.troops[start] matches Some(t) && crate::pieces::spec_is_sliding(t.piece) && t.color
            == b.turn && sliding_direction(t.piece, d),
        1 <= n <= edge_distance(start, d),
        forall|k: int| 1 <= k < n ==> b.troops[#[trigger] ray_square(start, d, k)] is None,
        b.troops[ray_square(start, d, n)] matches Some(u),
    ensures
        pseudo_legal(b, (Move { start: start as usize, end: ray_square(start, d, n) as usize }))
            <==> b.troops[ray_square(start, d, n)]->Some_0.color != b.turn,
{
    lemma_ray_step(start, d, n);
    let mv = Move { start: start as usize, end: ray_square(start, d, n) as usize };
    let t = b.troops[start]->Some_0;
    assert(sliding_ray_hit(b, t.piece, start, mv, d, n));
}

/// Law: an en-passant target diagonally forward of a pawn of the side to
/// move, with the target square empty, makes the pawn's move onto the
/// target pseudo-legal; on the same position without the target, that move
/// is not generated.
pub proof fn lemma_en_passant_toggle(b1: BoardModel, b2: BoardModel, start: int, target: int)
    requires
        b1.wf(),
        b2.wf(),
        0 <= start < 64,
        b1.troops[start] matches Some(t) && t.piece is Pawn && t.color == b1.turn,
        b2.troops == b1.troops,
        b2.turn == b1.turn,
        pawn_diagonal_square(b1.turn, start, target),
        on_board(target),
        b1.troops[target] is None,
        b1.en_passant_target == Some(target),
        b2.en_passant_target is None,
    ensures
        pseudo_legal(b1, (Move { start: start as usize, end: target as usize })),
        !pseudo_legal(b2, (Move { start: start as usize, end: target as usize })),
{
}

} // verus!
