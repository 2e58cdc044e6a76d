use chess_core::geometry::{direction_offset, squares_to_edge};

#[test]
fn direction_offsets_are_the_eight_compass_steps() {
    let expected: [i8; 8] = [-8, 8, -1, 1, -9, 9, -7, 7];
    for d in 0..8 {
        assert_eq!(direction_offset(d), expected[d]);
    }
}

#[test]
fn edge_distances_from_a_corner() {
    // square 0 (top left): [north, south, west, east, nw, se, ne, sw]
    let expected: [u8; 8] = [0, 7, 0, 7, 0, 7, 0, 0];
    for d in 0..8 {
        assert_eq!(squares_to_edge(0, d), expected[d]);
    }
    // square 63 (bottom right)
    let expected: [u8; 8] = [7, 0, 7, 0, 7, 0, 0, 0];
    for d in 0..8 {
        assert_eq!(squares_to_edge(63, d), expected[d]);
    }
}

#[test]
fn edge_distances_from_the_middle() {
    // square 43 = row 5, file 3
    let expected: [u8; 8] = [5, 2, 3, 4, 3, 2, 4, 2];
    for d in 0..8 {
        assert_eq!(squares_to_edge(43, d), expected[d]);
    }
}

#[test]
fn stepping_the_edge_distance_stays_on_the_board() {
    for sq in 0..64usize {
        for d in 0..8usize {
            let n = squares_to_edge(sq, d) as i32;
            let target = sq as i32 + direction_offset(d) as i32 * n;
            assert!((0..64).contains(&target));
        }
    }
}
