//! Board geometry: square indices, compass directions, and distances to the
//! board edge.
//!
//! Squares are numbered 0..64 in row-major order with 0 at the top left of
//! the FEN row order and 63 at the bottom right.  The eight compass
//! directions are numbered in the fixed order north, south, west, east,
//! northwest, southeast, northeast, southwest.

use vstd::prelude::*;

verus! {

/// Rank (row) of a square index: 0 is the top row of the FEN row order,
/// 7 the bottom row.
pub open spec fn rank_of(sq: int) -> int {
    sq / 8
}

/// File (column) of a square index: 0 is the leftmost column.
pub open spec fn file_of(sq: int) -> int {
    sq % 8
}

/// A square index that lies on the board.
pub open spec fn on_board(sq: int) -> bool {
    0 <= sq < 64
}

/// Row step taken by one move in a compass direction.
pub open spec fn dir_row_step(d: int) -> int {
    if d == 0 {
        -1
    } else if d == 1 {
        1
    } else if d == 2 {
        0
    } else if d == 3 {
        0
    } else if d == 4 {
        -1
    } else if d == 5 {
        1
    } else if d == 6 {
        -1
    } else {
        1
    }
}

/// File step taken by one move in a compass direction.
pub open spec fn dir_file_step(d: int) -> int {
    if d == 0 {
        0
    } else if d == 1 {
        0
    } else if d == 2 {
        -1
    } else if d == 3 {
        1
    } else if d == 4 {
        -1
    } else if d == 5 {
        1
    } else if d == 6 {
        1
    } else {
        -1
    }
}

/// Index offset of one step in a compass direction: north is -8, south 8,
/// west -1, east 1, northwest -9, southeast 9, northeast -7, southwest 7.
pub open spec fn dir_offset(d: int) -> int {
    8 * dir_row_step(d) + dir_file_step(d)
}

/// Number of squares between a square and the board edge in a direction.
/// Stepping at most this many times in the direction stays on the board;
/// callers must never step further.
pub open spec fn edge_distance(sq: int, d: int) -> int {
    let north = rank_of(sq);
    let south = 7 - rank_of(sq);
    let west = file_of(sq);
    let east = 7 - file_of(sq);
    if d == 0 {
        north
    } else if d == 1 {
        south
    } else if d == 2 {
        west
    } else if d == 3 {
        east
    } else if d == 4 {
        if north <= west {
            north
        } else {
            west
        }
    } else if d == 5 {
        if south <= east {
            south
        } else {
            east
        }
    } else if d == 6 {
        if north <= east {
            north
        } else {
            east
        }
    } else {
        if south <= west {
            south
        } else {
            west
        }
    }
}

/// Index offset of one step in a compass direction.
pub fn direction_offset(d: usize) -> (o: i8)
    requires
        d < 8,
    ensures
        o as int == dir_offset(d as int),
{
    if d == 0 {
        -8
    } else if d == 1 {
        8
    } else if d == 2 {
        -1
    } else if d == 3 {
        1
    } else if d == 4 {
        -9
    } else if d == 5 {
        9
    } else if d == 6 {
        -7
    } else {
        7
    }
}

/// Number of squares between a square and the board edge in a direction.
pub fn squares_to_edge(sq: usize, d: usize) -> (n: u8)
    requires
        sq < 64,
        d < 8,
    ensures
        n as int == edge_distance(sq as int, d as int),
{
    let rank: u8 = (sq / 8) as u8;
    let file: u8 = (sq % 8) as u8;
    let north: u8 = rank;
    let south: u8 = 7 - rank;
    let west: u8 = file;
    let east: u8 = 7 - file;
    if d == 0 {
        north
    } else if d == 1 {
        south
    } else if d == 2 {
        west
    } else if d == 3 {
        east
    } else if d == 4 {
        if north <= west {
            north
        } else {
            west
        }
    } else if d == 5 {
        if south <= east {
            south
        } else {
            east
        }
    } else if d == 6 {
        if north <= east {
            north
        } else {
            east
        }
    } else {
        if south <= west {
            south
        } else {
            west
        }
    }
}

/// Moving by a whole-board offset of `dr` rows and `dc` files stays on the
/// board exactly when rank and file each stay in range, and then the rank
/// and file of the target are the shifted rank and file.
pub proof fn lemma_square_delta(sq: int, dr: int, dc: int)
    requires
        on_board(sq),
        0 <= rank_of(sq) + dr < 8,
        0 <= file_of(sq) + dc < 8,
    ensures
        on_board(sq + 8 * dr + dc),
        rank_of(sq + 8 * dr + dc) == rank_of(sq) + dr,
        file_of(sq + 8 * dr + dc) == file_of(sq) + dc,
{
    let r = rank_of(sq);
    let f = file_of(sq);
    vstd::arithmetic::div_mod::lemma_fundamental_div_mod(sq, 8);
    assert(sq + 8 * dr + dc == (r + dr) * 8 + (f + dc));
    vstd::arithmetic::div_mod::lemma_fundamental_div_mod_converse(sq + 8 * dr + dc, 8, r + dr, f + dc);
}

/// Stepping `n` times in a direction, within the edge distance, stays on the
/// board and shifts the rank and file by `n` row and file steps.
pub proof fn lemma_ray_step(sq: int, d: int, n: int)
    requires
        on_board(sq),
        0 <= d < 8,
        0 <= n <= edge_distance(sq, d),
    ensures
        on_board(sq + n * dir_offset(d)),
        rank_of(sq + n * dir_offset(d)) == rank_of(sq) + n * dir_row_step(d),
        file_of(sq + n * dir_offset(d)) == file_of(sq) + n * dir_file_step(d),
{
    let drs = dir_row_step(d);
    let dcs = dir_file_step(d);
    lemma_mul_step(n, drs);
    lemma_mul_step(n, dcs);
    assert(n * dir_offset(d) == 8 * (n * drs) + n * dcs) by (nonlinear_arith)
        requires
            dir_offset(d) == 8 * drs + dcs,
    ;
    lemma_square_delta(sq, n * drs, n * dcs);
}

/// A square on the board is 8 times its rank plus its file, and rank and
/// file lie in 0..8.
pub proof fn lemma_square_decompose(sq: int)
    requires
        on_board(sq),
    ensures
        sq == 8 * rank_of(sq) + file_of(sq),
        0 <= rank_of(sq) < 8,
        0 <= file_of(sq) < 8,
{
    vstd::arithmetic::div_mod::lemma_fundamental_div_mod(sq, 8);
}

/// Two distinct ray steps from one square, each within its edge distance,
/// land on distinct squares: a target square determines the direction and
/// the step count.
pub proof fn lemma_ray_target_determines(sq: int, d1: int, n1: int, d2: int, n2: int)
    requires
        on_board(sq),
        0 <= d1 < 8,
        0 <= d2 < 8,
        1 <= n1 <= edge_distance(sq, d1),
        1 <= n2 <= edge_distance(sq, d2),
        sq + n1 * dir_offset(d1) == sq + n2 * dir_offset(d2),
    ensures
        d1 == d2,
        n1 == n2,
{
    lemma_ray_step(sq, d1, n1);
    lemma_ray_step(sq, d2, n2);
    lemma_mul_step(n1, dir_row_step(d1));
    lemma_mul_step(n1, dir_file_step(d1));
    lemma_mul_step(n2, dir_row_step(d2));
    lemma_mul_step(n2, dir_file_step(d2));
    assert(n1 * dir_row_step(d1) == n2 * dir_row_step(d2));
    assert(n1 * dir_file_step(d1) == n2 * dir_file_step(d2));
}

/// Multiplying by a row or file step of -1, 0 or 1 negates, zeroes or keeps
/// the factor.
proof fn lemma_mul_step(n: int, s: int)
    requires
        -1 <= s <= 1,
    ensures
        n * s == if s == -1 {
            -n
        } else if s == 0 {
            0int
        } else {
            n
        },
{
    assert(n * s == if s == -1 {
        -n
    } else if s == 0 {
        0int
    } else {
        n
    }) by (nonlinear_arith)
        requires
            -1 <= s <= 1,
    ;
}

} // verus!
