//! General properties of the rule engine, stated and proved once and for
//! all: region geometry, the no-clash rule, win detection, inventory
//! bookkeeping, and the fidelity of the rendering.

use crate::grid::{
    block_partners, col_of, col_partners, initial_lower_pieces, initial_upper_pieces,
    is_upper_shape, lemma_partners_in_range, lemma_pos_decompose, region_wins, row_of,
    row_partners, shape_of, shares_region, spec_can_place, spec_region_winner, spec_winner,
    spec_winner_from, Piece, Player,
};
use crate::render::{cell_chars, render_chars, row_chars};
use vstd::prelude::*;

verus! {

/// Every position lies in exactly three regions; the three other cells of
/// each form a triple of three distinct valid positions, none equal to the
/// position itself.
pub proof fn lemma_region_partners(pos: int)
    requires
        1 <= pos <= 16,
    ensures
        row_partners(pos).len() == 3,
        col_partners(pos).len() == 3,
        block_partners(pos).len() == 3,
        forall|k: int|
            0 <= k < 3 ==> 1 <= #[trigger] row_partners(pos)[k] <= 16 && row_partners(pos)[k]
                != pos,
        forall|k: int|
            0 <= k < 3 ==> 1 <= #[trigger] col_partners(pos)[k] <= 16 && col_partners(pos)[k]
                != pos,
        forall|k: int|
            0 <= k < 3 ==> 1 <= #[trigger] block_partners(pos)[k] <= 16 && block_partners(pos)[k]
                != pos,
        forall|k1: int, k2: int|
            0 <= k1 < 3 && 0 <= k2 < 3 && k1 != k2 ==> #[trigger] row_partners(pos)[k1]
                != #[trigger] row_partners(pos)[k2],
        forall|k1: int, k2: int|
            0 <= k1 < 3 && 0 <= k2 < 3 && k1 != k2 ==> #[trigger] col_partners(pos)[k1]
                != #[trigger] col_partners(pos)[k2],
        forall|k1: int, k2: int|
            0 <= k1 < 3 && 0 <= k2 < 3 && k1 != k2 ==> #[trigger] block_partners(pos)[k1]
                != #[trigger] block_partners(pos)[k2],
{
    lemma_pos_decompose(pos);
    lemma_partners_in_range(pos);
}

/// Placing a piece on an already-occupied cell is always rejected, for any
/// piece and any occupied cell.
pub proof fn lemma_occupied_rejected(b: Seq<Option<Piece>>, piece: Piece, pos: int)
    requires
        1 <= pos <= 16,
        b[pos - 1] is Some,
    ensures
        !spec_can_place(b, piece, pos),
{
}

/// When a region holds an opposing-color piece of the same shape, the
/// placement is rejected.
pub proof fn lemma_clash_rejected(b: Seq<Option<Piece>>, piece: Piece, pos: int, q: int, p2: Piece)
    requires
        1 <= pos <= 16,
        1 <= q <= 16,
        shares_region(pos, q),
        b[q - 1] == Some(p2),
        shape_of(p2.0) == shape_of(piece.0),
        is_upper_shape(p2.0) != is_upper_shape(piece.0),
    ensures
        !spec_can_place(b, piece, pos),
{
}

/// Same-color pieces never block each other: a placement that was legal
/// stays legal after a piece of the same shape and the same color lands on
/// another cell.
pub proof fn lemma_same_color_never_blocks(
    b: Seq<Option<Piece>>,
    piece: Piece,
    pos: int,
    piece2: Piece,
    q: int,
)
    requires
        b.len() == 16,
        1 <= pos <= 16,
        1 <= q <= 16,
        q != pos,
        spec_can_place(b, piece, pos),
        spec_can_place(b, piece2, q),
        shape_of(piece2.0) == shape_of(piece.0),
        is_upper_shape(piece2.0) == is_upper_shape(piece.0),
    ensures
        spec_can_place(b.update(pos - 1, Some(piece)), piece2, q),
{
    let b2 = b.update(pos - 1, Some(piece));
    assert(b2[q - 1] == b[q - 1]);
    assert forall|q2: int|
        1 <= q2 <= 16 && #[trigger] shares_region(q, q2) implies !crate::grid::blocks(
        piece2,
        b2[q2 - 1],
    ) by {
        if q2 != pos {
            assert(b2[q2 - 1] == b[q2 - 1]);
        } else {
            assert(b2[pos - 1] == Some(piece));
        }
    }
}

/// A board has a winner exactly when some region is winning for one of the
/// two colors.
pub proof fn lemma_winner_exists(b: Seq<Option<Piece>>)
    ensures
        (spec_winner(b) is Some) == exists|j: int|
            0 <= j < 12 && (#[trigger] region_wins(b, j, true) || region_wins(b, j, false)),
        spec_winner(b) == Some(Player(0)) ==> exists|j: int|
            0 <= j < 12 && #[trigger] region_wins(b, j, true),
        spec_winner(b) == Some(Player(1)) ==> exists|j: int|
            0 <= j < 12 && #[trigger] region_wins(b, j, false),
{
    lemma_winner_from_exists(b, 0);
}

proof fn lemma_winner_from_exists(b: Seq<Option<Piece>>, j: int)
    requires
        0 <= j <= 12,
    ensures
        (spec_winner_from(b, j) is Some) == exists|jj: int|
            j <= jj < 12 && (#[trigger] region_wins(b, jj, true) || region_wins(b, jj, false)),
        spec_winner_from(b, j) == Some(Player(0)) ==> exists|jj: int|
            j <= jj < 12 && #[trigger] region_wins(b, jj, true),
        spec_winner_from(b, j) == Some(Player(1)) ==> exists|jj: int|
            j <= jj < 12 && #[trigger] region_wins(b, jj, false),
    decreases 12 - j,
{
    if j < 12 {
        lemma_winner_from_exists(b, j + 1);
        if spec_region_winner(b, j) is Some {
            if region_wins(b, j, true) {
                assert(region_wins(b, j, true) || region_wins(b, j, false));
            } else {
                assert(region_wins(b, j, false));
            }
        } else {
            assert(!region_wins(b, j, true) && !region_wins(b, j, false));
            assert(spec_winner_from(b, j) == spec_winner_from(b, j + 1));
            if exists|jj: int|
                j <= jj < 12 && (#[trigger] region_wins(b, jj, true) || region_wins(b, jj, false)) {
                assert(exists|jj: int|
                    j + 1 <= jj < 12 && (#[trigger] region_wins(b, jj, true) || region_wins(
                        b,
                        jj,
                        false,
                    )));
            }
        }
    }
}

/// Where a cell's two characters stand in the rendering.
pub open spec fn cell_offset(pos: int) -> int {
    19 + 37 * row_of(pos) + 5 * col_of(pos)
}

proof fn lemma_component_lens(b: Seq<Option<Piece>>)
    ensures
        forall|cell: Option<Piece>, p: int| (#[trigger] cell_chars(cell, p)).len() == 2,
        forall|r: int| 0 <= r < 4 ==> (#[trigger] row_chars(b, r)).len() == 17,
{
}

/// The rendering shows, at each cell's offset, exactly that cell's two
/// characters: a space and the piece's symbol when the cell is occupied, the
/// position label when it is empty.
pub proof fn lemma_render_reflects(b: Seq<Option<Piece>>, pos: int)
    requires
        b.len() == 16,
        1 <= pos <= 16,
    ensures
        render_chars(b).len() == 166,
        render_chars(b)[cell_offset(pos)] == cell_chars(b[pos - 1], pos)[0],
        render_chars(b)[cell_offset(pos) + 1] == cell_chars(b[pos - 1], pos)[1],
{
    lemma_pos_decompose(pos);
    lemma_component_lens(b);
    let r = row_of(pos);
    let c = col_of(pos);
    assert(render_chars(b)[19 + 37 * r + 5 * c] == row_chars(b, r)[5 * c]);
    assert(render_chars(b)[19 + 37 * r + 5 * c + 1] == row_chars(b, r)[5 * c + 1]);
    assert(row_chars(b, r)[5 * c] == cell_chars(b[4 * r + c], 4 * r + c + 1)[0]);
    assert(row_chars(b, r)[5 * c + 1] == cell_chars(b[4 * r + c], 4 * r + c + 1)[1]);
}

/// A cell's second rendered character tells its content: a piece symbol is
/// never a digit, so two cells showing the same character hold the same
/// content.
#[verifier::rlimit(30)]
proof fn lemma_cell_chars_injective(c1: Option<Piece>, c2: Option<Piece>, pos: int)
    requires
        1 <= pos <= 16,
        c1 matches Some(p) ==> crate::grid::is_piece_char(p.0),
        c2 matches Some(p) ==> crate::grid::is_piece_char(p.0),
        cell_chars(c1, pos)[1] == cell_chars(c2, pos)[1],
    ensures
        c1 == c2,
{
}

/// Boards of valid pieces that render alike are equal: the rendering
/// reflects exactly the occupied or empty state of every cell, and the board
/// can be read back from it.
pub proof fn lemma_render_round_trip(b1: Seq<Option<Piece>>, b2: Seq<Option<Piece>>)
    requires
        b1.len() == 16,
        b2.len() == 16,
        forall|i: int|
            0 <= i < 16 ==> (#[trigger] b1[i] matches Some(p) ==> crate::grid::is_piece_char(p.0)),
        forall|i: int|
            0 <= i < 16 ==> (#[trigger] b2[i] matches Some(p) ==> crate::grid::is_piece_char(p.0)),
        render_chars(b1) == render_chars(b2),
    ensures
        b1 =~= b2,
{
    assert forall|i: int| 0 <= i < 16 implies b1[i] == b2[i] by {
        let pos = i + 1;
        lemma_render_reflects(b1, pos);
        lemma_render_reflects(b2, pos);
        assert(cell_chars(b1[i], pos)[1] == cell_chars(b2[i], pos)[1]);
        lemma_cell_chars_injective(b1[i], b2[i], pos);
    }
}

/// How many pieces with symbol `c` a sequence of pieces holds.
pub open spec fn count_of(s: Seq<Piece>, c: char) -> nat
    decreases s.len(),
{
    if s.len() == 0 {
        0
    } else {
        (if s[0].0 == c {
            1nat
        } else {
            0nat
        }) + count_of(s.drop_first(), c)
    }
}

/// Each player's initial inventory holds exactly two pieces of each of that
/// player's four symbols, and none of any other symbol.
pub proof fn lemma_initial_counts(c: char)
    ensures
        count_of(initial_upper_pieces(), c) == (if c == 'A' || c == 'B' || c == 'C' || c == 'D' {
            2nat
        } else {
            0nat
        }),
        count_of(initial_lower_pieces(), c) == (if c == 'a' || c == 'b' || c == 'c' || c == 'd' {
            2nat
        } else {
            0nat
        }),
{
    let u = initial_upper_pieces();
    let u1 = seq![Piece('A'), Piece('B'), Piece('B'), Piece('C'), Piece('C'), Piece('D'), Piece('D')];
    let u2 = seq![Piece('B'), Piece('B'), Piece('C'), Piece('C'), Piece('D'), Piece('D')];
    let u3 = seq![Piece('B'), Piece('C'), Piece('C'), Piece('D'), Piece('D')];
    let u4 = seq![Piece('C'), Piece('C'), Piece('D'), Piece('D')];
    let u5 = seq![Piece('C'), Piece('D'), Piece('D')];
    let u6 = seq![Piece('D'), Piece('D')];
    let u7 = seq![Piece('D')];
    let u8 = Seq::<Piece>::empty();
    assert(u.drop_first() =~= u1);
    assert(u1.drop_first() =~= u2);
    assert(u2.drop_first() =~= u3);
    assert(u3.drop_first() =~= u4);
    assert(u4.drop_first() =~= u5);
    assert(u5.drop_first() =~= u6);
    assert(u6.drop_first() =~= u7);
    assert(u7.drop_first() =~= u8);
    assert(count_of(u8, c) == 0);
    assert(count_of(u7, c) == count_of(u8, c) + if c == 'D' { 1nat } else { 0nat });
    assert(count_of(u6, c) == count_of(u7, c) + if c == 'D' { 1nat } else { 0nat });
    assert(count_of(u5, c) == count_of(u6, c) + if c == 'C' { 1nat } else { 0nat });
    assert(count_of(u4, c) == count_of(u5, c) + if c == 'C' { 1nat } else { 0nat });
    assert(count_of(u3, c) == count_of(u4, c) + if c == 'B' { 1nat } else { 0nat });
    assert(count_of(u2, c) == count_of(u3, c) + if c == 'B' { 1nat } else { 0nat });
    assert(count_of(u1, c) == count_of(u2, c) + if c == 'A' { 1nat } else { 0nat });
    assert(count_of(u, c) == count_of(u1, c) + if c == 'A' { 1nat } else { 0nat });
    let l = initial_lower_pieces();
    let l1 = seq![Piece('a'), Piece('b'), Piece('b'), Piece('c'), Piece('c'), Piece('d'), Piece('d')];
    let l2 = seq![Piece('b'), Piece('b'), Piece('c'), Piece('c'), Piece('d'), Piece('d')];
    let l3 = seq![Piece('b'), Piece('c'), Piece('c'), Piece('d'), Piece('d')];
    let l4 = seq![Piece('c'), Piece('c'), Piece('d'), Piece('d')];
    let l5 = seq![Piece('c'), Piece('d'), Piece('d')];
    let l6 = seq![Piece('d'), Piece('d')];
    let l7 = seq![Piece('d')];
    assert(l.drop_first() =~= l1);
    assert(l1.drop_first() =~= l2);
    assert(l2.drop_first() =~= l3);
    assert(l3.drop_first() =~= l4);
    assert(l4.drop_first() =~= l5);
    assert(l5.drop_first() =~= l6);
    assert(l6.drop_first() =~= l7);
    assert(l7.drop_first() =~= u8);
    assert(count_of(l7, c) == count_of(u8, c) + if c == 'd' { 1nat } else { 0nat });
    assert(count_of(l6, c) == count_of(l7, c) + if c == 'd' { 1nat } else { 0nat });
    assert(count_of(l5, c) == count_of(l6, c) + if c == 'c' { 1nat } else { 0nat });
    assert(count_of(l4, c) == count_of(l5, c) + if c == 'c' { 1nat } else { 0nat });
    assert(count_of(l3, c) == count_of(l4, c) + if c == 'b' { 1nat } else { 0nat });
    assert(count_of(l2, c) == count_of(l3, c) + if c == 'b' { 1nat } else { 0nat });
    assert(count_of(l1, c) == count_of(l2, c) + if c == 'a' { 1nat } else { 0nat });
    assert(count_of(l, c) == count_of(l1, c) + if c == 'a' { 1nat } else { 0nat });
}

/// Removing the piece at one index takes exactly one copy of its symbol, and
/// no copy of any other symbol, out of the sequence.
pub proof fn lemma_count_remove(s: Seq<Piece>, i: int, c: char)
    requires
        0 <= i < s.len(),
    ensures
        count_of(s, c) == count_of(s.remove(i), c) + (if s[i].0 == c {
            1nat
        } else {
            0nat
        }),
    decreases i,
{
    if i == 0 {
        assert(s.remove(0) =~= s.drop_first());
    } else {
        lemma_count_remove(s.drop_first(), i - 1, c);
        assert(s.remove(i).drop_first() =~= s.drop_first().remove(i - 1));
        assert(s.remove(i)[0] == s[0]);
        assert(s.remove(i).len() == s.len() - 1);
        assert(count_of(s, c) == (if s[0].0 == c {
            1nat
        } else {
            0nat
        }) + count_of(s.drop_first(), c));
        assert(count_of(s.remove(i), c) == (if s.remove(i)[0].0 == c {
            1nat
        } else {
            0nat
        }) + count_of(s.remove(i).drop_first(), c));
    }
}

} // verus!
