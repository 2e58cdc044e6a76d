//! Rendering a board as an ASCII grid of one-letter piece codes, with the
//! side to move and the castling rights annotated, for debugging and
//! logging.

use vstd::prelude::*;
use crate::board::{Board, BoardModel, CastlingRights};
use crate::pieces::{color_name, troop_letter, Color, Piece, Troop};

verus! {

/// One rendered grid cell: the troop's one-letter code, or a space for an
/// empty square.
pub open spec fn cell_char(slot: Option<Troop>) -> char {
    match slot {
        Some(t) => troop_letter(t),
        None => ' ',
    }
}

/// One rendered row: a bar, then each of the row's eight cells followed by
/// a bar, then a newline - 18 characters.
pub open spec fn row_chars(b: BoardModel, r: int) -> Seq<char> {
    seq![
        '|',
        cell_char(b.troops[8 * r]),
        '|',
        cell_char(b.troops[8 * r + 1]),
        '|',
        cell_char(b.troops[8 * r + 2]),
        '|',
        cell_char(b.troops[8 * r + 3]),
        '|',
        cell_char(b.troops[8 * r + 4]),
        '|',
        cell_char(b.troops[8 * r + 5]),
        '|',
        cell_char(b.troops[8 * r + 6]),
        '|',
        cell_char(b.troops[8 * r + 7]),
        '|',
        '\n',
    ]
}

/// The first `k` rendered rows, in order.
pub open spec fn grid_rows_upto(b: BoardModel, k: int) -> Seq<char>
    decreases k,
{
    if k <= 0 {
        Seq::<char>::empty()
    } else {
        grid_rows_upto(b, k - 1) + row_chars(b, k - 1)
    }
}

/// The castling-rights annotations, in the fixed order ` (K) (Q) (k) (q)`,
/// each present exactly when the corresponding right is set.
pub open spec fn castle_marks(c: CastlingRights) -> Seq<char> {
    (if c.white_king_side {
        seq![' ', '(', 'K', ')']
    } else {
        Seq::<char>::empty()
    }) + (if c.white_queen_side {
        seq![' ', '(', 'Q', ')']
    } else {
        Seq::<char>::empty()
    }) + (if c.black_king_side {
        seq![' ', '(', 'k', ')']
    } else {
        Seq::<char>::empty()
    }) + (if c.black_queen_side {
        seq![' ', '(', 'q', ')']
    } else {
        Seq::<char>::empty()
    })
}

/// The full rendering: the eight rows, a blank line, the side to move, and
/// the castling-rights annotations.
pub open spec fn render_chars(b: BoardModel) -> Seq<char> {
    grid_rows_upto(b, 8) + seq!['\n'] + color_name(b.turn) + seq![
        ' ',
        't',
        'o',
        ' ',
        'm',
        'o',
        'v',
        'e',
        '\n',
    ] + castle_marks(b.castling_rights)
}

/// The first `k` rendered rows hold `18 * k` characters.
proof fn lemma_grid_len(b: BoardModel, k: int)
    requires
        0 <= k,
    ensures
        grid_rows_upto(b, k).len() == 18 * k,
    decreases k,
{
    if k > 0 {
        lemma_grid_len(b, k - 1);
    }
}

/// Character `j` of row `r` among the first `k` rendered rows stands at
/// position `18 * r + j`.
proof fn lemma_grid_index(b: BoardModel, k: int, r: int, j: int)
    requires
        0 <= r < k,
        0 <= j < 18,
    ensures
        grid_rows_upto(b, k)[18 * r + j] == row_chars(b, r)[j],
    decreases k,
{
    lemma_grid_len(b, k - 1);
    if r < k - 1 {
        lemma_grid_index(b, k - 1, r, j);
    }
}

/// A rendered cell determines the occupant: the twelve piece letters and
/// the space are pairwise distinct.
proof fn lemma_cell_char_injective(a: Option<Troop>, b: Option<Troop>)
    requires
        cell_char(a) == cell_char(b),
    ensures
        a == b,
{
}

/// Each castling letter appears in the annotations exactly when the
/// corresponding right is set.
proof fn lemma_castle_contains(c: CastlingRights)
    ensures
        castle_marks(c).contains('K') == c.white_king_side,
        castle_marks(c).contains('Q') == c.white_queen_side,
        castle_marks(c).contains('k') == c.black_king_side,
        castle_marks(c).contains('q') == c.black_queen_side,
{
    let mk = castle_marks(c);
    if c.white_king_side {
        assert(mk[2] == 'K');
        assert(mk.contains('K'));
    } else {
        assert(!mk.contains('K')) by {
            if mk.contains('K') {
                let i = choose|i: int| 0 <= i < mk.len() && mk[i] == 'K';
            }
        }
    }
    let pq: int = if c.white_king_side {
        4
    } else {
        0
    };
    if c.white_queen_side {
        assert(mk[pq + 2] == 'Q');
        assert(mk.contains('Q'));
    } else {
        assert(!mk.contains('Q')) by {
            if mk.contains('Q') {
                let i = choose|i: int| 0 <= i < mk.len() && mk[i] == 'Q';
            }
        }
    }
    let pk: int = pq + (if c.white_queen_side {
        4int
    } else {
        0
    });
    if c.black_king_side {
        assert(mk[pk + 2] == 'k');
        assert(mk.contains('k'));
    } else {
        assert(!mk.contains('k')) by {
            if mk.contains('k') {
                let i = choose|i: int| 0 <= i < mk.len() && mk[i] == 'k';
            }
        }
    }
    let pb: int = pk + (if c.black_king_side {
        4int
    } else {
        0
    });
    if c.black_queen_side {
        assert(mk[pb + 2] == 'q');
        assert(mk.contains('q'));
    } else {
        assert(!mk.contains('q')) by {
            if mk.contains('q') {
                let i = choose|i: int| 0 <= i < mk.len() && mk[i] == 'q';
            }
        }
    }
}

/// Law: rendering is lossless for piece placement, turn and castling
/// rights: two well-formed positions that render to the same text hold the
/// same occupancy grid, the same side to move and the same castling rights.
/// (The en-passant target and the move counters are not rendered, so they
/// need not agree.)
pub proof fn lemma_render_lossless(m1: BoardModel, m2: BoardModel)
    requires
        m1.wf(),
        m2.wf(),
        render_chars(m1) == render_chars(m2),
    ensures
        m1.troops == m2.troops,
        m1.turn == m2.turn,
        m1.castling_rights == m2.castling_rights,
{
    let w1 = render_chars(m1);
    let w2 = render_chars(m2);
    lemma_grid_len(m1, 8);
    lemma_grid_len(m2, 8);
    assert(color_name(m1.turn).len() == 5);
    assert(color_name(m2.turn).len() == 5);
    assert(w1[145] == color_name(m1.turn)[0]);
    assert(w2[145] == color_name(m2.turn)[0]);
    assert(m1.turn == m2.turn);
    assert forall|sq: int| 0 <= sq < 64 implies m1.troops[sq] == m2.troops[sq] by {
        let r = sq / 8;
        let f = sq % 8;
        crate::geometry::lemma_square_decompose(sq);
        lemma_grid_index(m1, 8, r, 1 + 2 * f);
        lemma_grid_index(m2, 8, r, 1 + 2 * f);
        assert(row_chars(m1, r)[1 + 2 * f] == cell_char(m1.troops[sq]));
        assert(row_chars(m2, r)[1 + 2 * f] == cell_char(m2.troops[sq]));
        assert(w1[18 * r + 1 + 2 * f] == cell_char(m1.troops[sq]));
        assert(w2[18 * r + 1 + 2 * f] == cell_char(m2.troops[sq]));
        lemma_cell_char_injective(m1.troops[sq], m2.troops[sq]);
    }
    assert(m1.troops =~= m2.troops);
    let mk1 = castle_marks(m1.castling_rights);
    let mk2 = castle_marks(m2.castling_rights);
    assert(w1.len() == 159 + mk1.len());
    assert(w2.len() == 159 + mk2.len());
    assert forall|i: int| 0 <= i < mk1.len() implies mk1[i] == mk2[i] by {
        assert(w1[159 + i] == mk1[i]);
        assert(w2[159 + i] == mk2[i]);
    }
    assert(mk1 =~= mk2);
    lemma_castle_contains(m1.castling_rights);
    lemma_castle_contains(m2.castling_rights);
    assert(m1.castling_rights == m2.castling_rights);
}

/// Law: decoding then rendering is lossless for piece placement, turn and
/// castling rights: any two FEN strings that decode successfully and render
/// to the same text denote the same occupancy grid, side to move and
/// castling rights.
pub proof fn lemma_decode_render_lossless(s1: Seq<char>, s2: Seq<char>)
    requires
        crate::fen::spec_from_fen(s1) is Ok,
        crate::fen::spec_from_fen(s2) is Ok,
        render_chars(crate::fen::spec_from_fen(s1)->Ok_0) == render_chars(
            crate::fen::spec_from_fen(s2)->Ok_0,
        ),
    ensures
        crate::fen::spec_from_fen(s1)->Ok_0.troops == crate::fen::spec_from_fen(s2)->Ok_0.troops,
        crate::fen::spec_from_fen(s1)->Ok_0.turn == crate::fen::spec_from_fen(s2)->Ok_0.turn,
        crate::fen::spec_from_fen(s1)->Ok_0.castling_rights == crate::fen::spec_from_fen(
            s2,
        )->Ok_0.castling_rights,
{
    crate::fen::lemma_decoded_model_wf(s1);
    crate::fen::lemma_decoded_model_wf(s2);
    lemma_render_lossless(
        crate::fen::spec_from_fen(s1)->Ok_0,
        crate::fen::spec_from_fen(s2)->Ok_0,
    );
}

/// Appends one grid cell and its closing bar.
fn append_cell(out: &mut String, slot: Option<Troop>)
    ensures
        final(out)@ == old(out)@ + seq![cell_char(slot), '|'],
{
    match slot {
        None => {
            out.append(" |");
            proof {
                reveal_strlit(" |");
                assert(out@ =~= old(out)@ + seq![cell_char(slot), '|']);
            }
        },
        Some(t) => {
            match (t.color, t.piece) {
                (Color::White, Piece::King) => out.append("K|"),
                (Color::White, Piece::Queen) => out.append("Q|"),
                (Color::White, Piece::Rook) => out.append("R|"),
                (Color::White, Piece::Bishop) => out.append("B|"),
                (Color::White, Piece::Knight) => out.append("N|"),
                (Color::White, Piece::Pawn) => out.append("P|"),
                (Color::Black, Piece::King) => out.append("k|"),
                (Color::Black, Piece::Queen) => out.append("q|"),
                (Color::Black, Piece::Rook) => out.append("r|"),
                (Color::Black, Piece::Bishop) => out.append("b|"),
                (Color::Black, Piece::Knight) => out.append("n|"),
                (Color::Black, Piece::Pawn) => out.append("p|"),
            }
            proof {
                reveal_strlit("K|");
                reveal_strlit("Q|");
                reveal_strlit("R|");
                reveal_strlit("B|");
                reveal_strlit("N|");
                reveal_strlit("P|");
                reveal_strlit("k|");
                reveal_strlit("q|");
                reveal_strlit("r|");
                reveal_strlit("b|");
                reveal_strlit("n|");
                reveal_strlit("p|");
                assert(out@ =~= old(out)@ + seq![cell_char(slot), '|']);
            }
        },
    }
}

impl Board {
    /// Appends one rendered row of the grid.
    #[verifier::rlimit(50)]
    fn append_row(&self, out: &mut String, ri: usize)
        requires
            self.wf(),
            ri < 8,
        ensures
            final(out)@ == old(out)@ + row_chars(self@, ri as int),
    {
        let ghost row_start = out@;
        out.append("|");
        proof {
            reveal_strlit("|");
        }
        append_cell(out, self.troops[8 * ri]);
        append_cell(out, self.troops[8 * ri + 1]);
        append_cell(out, self.troops[8 * ri + 2]);
        append_cell(out, self.troops[8 * ri + 3]);
        append_cell(out, self.troops[8 * ri + 4]);
        append_cell(out, self.troops[8 * ri + 5]);
        append_cell(out, self.troops[8 * ri + 6]);
        append_cell(out, self.troops[8 * ri + 7]);
        out.append("\n");
        proof {
            reveal_strlit("\n");
            assert(out@ =~= row_start + row_chars(self@, ri as int));
        }
    }

    /// A human-readable rendering: eight rows of one-letter piece codes
    /// between bars, a blank line, the side to move, and the castling
    /// rights.
    #[verifier::loop_isolation(false)]
    #[verifier::rlimit(100)]
    pub fn render(&self) -> (r: String)
        requires
            self.wf(),
        ensures
            r@ == render_chars(self@),
    {
        let mut out = String::new();
        for ri in 0..8usize
            invariant
                out@ == grid_rows_upto(self@, ri as int),
        {
            self.append_row(&mut out, ri);
        }
        let ghost grid = grid_rows_upto(self@, 8);
        out.append("\n");
        proof {
            reveal_strlit("\n");
            assert(out@ =~= grid + seq!['\n']);
        }
        let name = self.turn.name();
        out.append(name.as_str());
        out.append(" to move\n");
        let ghost head = grid + seq!['\n'] + color_name(self@.turn) + seq![
            ' ',
            't',
            'o',
            ' ',
            'm',
            'o',
            'v',
            'e',
            '\n',
        ];
        proof {
            reveal_strlit(" to move\n");
            assert(out@ =~= head);
        }
        if self.castling_rights.white_king_side {
            out.append(" (K)");
            proof {
                reveal_strlit(" (K)");
                assert(out@ =~= head + seq![' ', '(', 'K', ')']);
            }
        }
        let ghost head2 = head + (if self@.castling_rights.white_king_side {
            seq![' ', '(', 'K', ')']
        } else {
            Seq::<char>::empty()
        });
        proof {
            assert(out@ =~= head2);
        }
        if self.castling_rights.white_queen_side {
            out.append(" (Q)");
            proof {
                reveal_strlit(" (Q)");
                assert(out@ =~= head2 + seq![' ', '(', 'Q', ')']);
            }
        }
        let ghost head3 = head2 + (if self@.castling_rights.white_queen_side {
            seq![' ', '(', 'Q', ')']
        } else {
            Seq::<char>::empty()
        });
        proof {
            assert(out@ =~= head3);
        }
        if self.castling_rights.black_king_side {
            out.append(" (k)");
            proof {
                reveal_strlit(" (k)");
                assert(out@ =~= head3 + seq![' ', '(', 'k', ')']);
            }
        }
        let ghost head4 = head3 + (if self@.castling_rights.black_king_side {
            seq![' ', '(', 'k', ')']
        } else {
            Seq::<char>::empty()
        });
        proof {
            assert(out@ =~= head4);
        }
        if self.castling_rights.black_queen_side {
            out.append(" (q)");
            proof {
                reveal_strlit(" (q)");
                assert(out@ =~= head4 + seq![' ', '(', 'q', ')']);
            }
        }
        proof {
            assert(out@ =~= head4 + (if self@.castling_rights.black_queen_side {
                seq![' ', '(', 'q', ')']
            } else {
                Seq::<char>::empty()
            }));
            assert(out@ =~= render_chars(self@));
        }
        out
    }
}

} // verus!
