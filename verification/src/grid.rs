//! The Quantik grid: board state, placement legality and win detection.

use itertools::Itertools;
use vstd::prelude::*;

verus! {

/// A player is represented by an i32 (0 or 1).
#[derive(Clone, Copy, Debug, PartialEq, Eq, Structural)]
pub struct Player(pub i32);

/// A player's piece, represented by a char: shapes 'A'-'D' for player 0,
/// 'a'-'d' for player 1.
#[derive(Clone, Copy, Debug, Eq, Hash, PartialEq, Structural)]
pub struct Piece(pub char);

/// True of the four shape characters of player 0.
pub open spec fn is_upper_shape(c: char) -> bool {
    c == 'A' || c == 'B' || c == 'C' || c == 'D'
}

/// True of the four shape characters of player 1.
pub open spec fn is_lower_shape(c: char) -> bool {
    c == 'a' || c == 'b' || c == 'c' || c == 'd'
}

/// The eight characters that denote a piece.
pub open spec fn is_piece_char(c: char) -> bool {
    is_upper_shape(c) || is_lower_shape(c)
}

/// The shape of a piece character, as its lower-case representative.
pub open spec fn shape_of(c: char) -> char {
    if c == 'A' {
        'a'
    } else if c == 'B' {
        'b'
    } else if c == 'C' {
        'c'
    } else if c == 'D' {
        'd'
    } else {
        c
    }
}

/// Does a cell's content forbid placing `piece` in a region that contains the
/// cell?  Only a piece of the same shape and the opposing color does.
pub open spec fn blocks(piece: Piece, cell: Option<Piece>) -> bool {
    match cell {
        Some(p) => shape_of(p.0) == shape_of(piece.0) && is_upper_shape(p.0)
            != is_upper_shape(piece.0),
        None => false,
    }
}

/// The row (0-3) of a board position (1-16).
pub open spec fn row_of(pos: int) -> int {
    (pos - 1) / 4
}

/// The column (0-3) of a board position (1-16).
pub open spec fn col_of(pos: int) -> int {
    (pos - 1) % 4
}

/// Two positions lie in the same 2x2 block.
pub open spec fn same_block(p: int, q: int) -> bool {
    row_of(p) / 2 == row_of(q) / 2 && col_of(p) / 2 == col_of(q) / 2
}

/// Two positions lie in a common region: same row, same column, or same block.
pub open spec fn shares_region(p: int, q: int) -> bool {
    row_of(p) == row_of(q) || col_of(p) == col_of(q) || same_block(p, q)
}

/// The three other positions in `pos`'s row, in ascending order.
pub open spec fn row_partners(pos: int) -> Seq<int> {
    let base = 4 * row_of(pos);
    let c = col_of(pos);
    if c == 0 {
        seq![base + 2, base + 3, base + 4]
    } else if c == 1 {
        seq![base + 1, base + 3, base + 4]
    } else if c == 2 {
        seq![base + 1, base + 2, base + 4]
    } else {
        seq![base + 1, base + 2, base + 3]
    }
}

/// The three other positions in `pos`'s column, in ascending order.
pub open spec fn col_partners(pos: int) -> Seq<int> {
    let c = col_of(pos);
    let r = row_of(pos);
    if r == 0 {
        seq![c + 5, c + 9, c + 13]
    } else if r == 1 {
        seq![c + 1, c + 9, c + 13]
    } else if r == 2 {
        seq![c + 1, c + 5, c + 13]
    } else {
        seq![c + 1, c + 5, c + 9]
    }
}

/// The three other positions in `pos`'s 2x2 block, in ascending order.
pub open spec fn block_partners(pos: int) -> Seq<int> {
    let tl = 8 * (row_of(pos) / 2) + 2 * (col_of(pos) / 2) + 1;
    let i = 2 * (row_of(pos) % 2) + col_of(pos) % 2;
    if i == 0 {
        seq![tl + 1, tl + 4, tl + 5]
    } else if i == 1 {
        seq![tl, tl + 4, tl + 5]
    } else if i == 2 {
        seq![tl, tl + 1, tl + 5]
    } else {
        seq![tl, tl + 1, tl + 4]
    }
}

/// The no-clash rule together with the occupancy rule: `piece` may go to
/// `pos` iff the cell is empty and no position sharing a region with `pos`
/// holds a piece of the same shape and the opposing color.
pub open spec fn spec_can_place(b: Seq<Option<Piece>>, piece: Piece, pos: int) -> bool {
    b[pos - 1] is None && forall|q: int|
        1 <= q <= 16 && #[trigger] shares_region(pos, q) ==> !blocks(piece, b[q - 1])
}

/// The pieces player 0 starts with: two of each shape, upper case.
pub open spec fn initial_upper_pieces() -> Seq<Piece> {
    seq![
        Piece('A'),
        Piece('A'),
        Piece('B'),
        Piece('B'),
        Piece('C'),
        Piece('C'),
        Piece('D'),
        Piece('D'),
    ]
}

/// The pieces player 1 starts with: two of each shape, lower case.
pub open spec fn initial_lower_pieces() -> Seq<Piece> {
    seq![
        Piece('a'),
        Piece('a'),
        Piece('b'),
        Piece('b'),
        Piece('c'),
        Piece('c'),
        Piece('d'),
        Piece('d'),
    ]
}

/// Why a call that changes the grid was rejected.
#[derive(Clone, Copy, Debug, PartialEq, Eq, Structural)]
pub enum GridError {
    /// The position lies outside 1..=16.
    PositionOutOfRange,
    /// The target cell is occupied, the no-clash rule forbids the placement,
    /// or the piece symbol is not one of the eight piece characters.
    IllegalPlacement,
    /// The player's inventory does not hold the piece.
    PieceNotHeld,
}

/// The Quantik grid is a 4x4 grid together with both players' inventories.
/// Each player starts with 8 pieces, two of each of the four shapes; player 0
/// plays 'A'-'D' and player 1 plays 'a'-'d'.  A piece may not be placed in a
/// row, column, or block in which the opponent has a piece of the same shape.
/// The first player to complete a row, column, or block with four distinct
/// shapes wins.
pub struct Grid {
    data: [Option<Piece>; 16],
    player_0_pieces: Vec<Piece>,
    player_1_pieces: Vec<Piece>,
}

impl Grid {
    /// The 16 cells of the board, by position order.
    pub closed spec fn board(self) -> Seq<Option<Piece>> {
        self.data@
    }

    /// The inventory the given player draws from: player 0's for id 0, else
    /// player 1's.
    pub closed spec fn pieces_of(self, player: Player) -> Seq<Piece> {
        if player.0 == 0 {
            self.player_0_pieces@
        } else {
            self.player_1_pieces@
        }
    }

    /// Well-formedness: every piece on the board or in an inventory is one of
    /// the eight piece characters.
    pub open spec fn wf(self) -> bool {
        &&& self.board().len() == 16
        &&& forall|i: int|
            0 <= i < 16 ==> (#[trigger] self.board()[i] matches Some(p) ==> is_piece_char(p.0))
        &&& forall|i: int|
            0 <= i < self.pieces_of(Player(0)).len() ==> is_upper_shape(
                #[trigger] self.pieces_of(Player(0))[i].0,
            )
        &&& forall|i: int|
            0 <= i < self.pieces_of(Player(1)).len() ==> is_lower_shape(
                #[trigger] self.pieces_of(Player(1))[i].0,
            )
    }

    /// By default, the board is initiated with no pieces, and each player has
    /// 8 pieces.
    pub fn new() -> (g: Grid)
        ensures
            g.wf(),
            forall|i: int| 0 <= i < 16 ==> g.board()[i] is None,
            g.pieces_of(Player(0)) == initial_upper_pieces(),
            g.pieces_of(Player(1)) == initial_lower_pieces(),
    {
        let data: [Option<Piece>; 16] = [None; 16];
        let mut player_0_pieces: Vec<Piece> = Vec::new();
        player_0_pieces.push(Piece('A'));
        player_0_pieces.push(Piece('A'));
        player_0_pieces.push(Piece('B'));
        player_0_pieces.push(Piece('B'));
        player_0_pieces.push(Piece('C'));
        player_0_pieces.push(Piece('C'));
        player_0_pieces.push(Piece('D'));
        player_0_pieces.push(Piece('D'));
        let mut player_1_pieces: Vec<Piece> = Vec::new();
        player_1_pieces.push(Piece('a'));
        player_1_pieces.push(Piece('a'));
        player_1_pieces.push(Piece('b'));
        player_1_pieces.push(Piece('b'));
        player_1_pieces.push(Piece('c'));
        player_1_pieces.push(Piece('c'));
        player_1_pieces.push(Piece('d'));
        player_1_pieces.push(Piece('d'));
        proof {
            assert(player_0_pieces@ =~= initial_upper_pieces());
            assert(player_1_pieces@ =~= initial_lower_pieces());
        }
        Grid { data, player_0_pieces, player_1_pieces }
    }

    /// The content of a cell: the piece at `pos`, or `None` when the cell is
    /// empty or `pos` lies beyond the board.
    pub fn get(&self, pos: usize) -> (r: Option<Piece>)
        requires
            1 <= pos,
        ensures
            r == (if 1 <= pos <= 16 {
                self.board()[pos - 1]
            } else {
                None::<Piece>
            }),
    {
        if pos <= 16 {
            self.data[pos - 1]
        } else {
            None
        }
    }
}

/// The partner triples of a position: for each of the three regions that
/// contain it (row, column, block, in that order), the region's three other
/// positions in ascending order.
pub fn get_all_regions(pos: usize) -> (r: Vec<[usize; 3]>)
    requires
        1 <= pos <= 16,
    ensures
        r@.len() == 3,
        forall|k: int| 0 <= k < 3 ==> r@[0]@[k] == row_partners(pos as int)[k],
        forall|k: int| 0 <= k < 3 ==> r@[1]@[k] == col_partners(pos as int)[k],
        forall|k: int| 0 <= k < 3 ==> r@[2]@[k] == block_partners(pos as int)[k],
{
    let row: usize = (pos - 1) / 4;
    let col: usize = (pos - 1) % 4;
    let base: usize = 4 * row;
    let row_p: [usize; 3] = if col == 0 {
        [base + 2, base + 3, base + 4]
    } else if col == 1 {
        [base + 1, base + 3, base + 4]
    } else if col == 2 {
        [base + 1, base + 2, base + 4]
    } else {
        [base + 1, base + 2, base + 3]
    };
    let col_p: [usize; 3] = if row == 0 {
        [col + 5, col + 9, col + 13]
    } else if row == 1 {
        [col + 1, col + 9, col + 13]
    } else if row == 2 {
        [col + 1, col + 5, col + 13]
    } else {
        [col + 1, col + 5, col + 9]
    };
    let tl: usize = 8 * (row / 2) + 2 * (col / 2) + 1;
    let bi: usize = 2 * (row % 2) + col % 2;
    let block_p: [usize; 3] = if bi == 0 {
        [tl + 1, tl + 4, tl + 5]
    } else if bi == 1 {
        [tl, tl + 4, tl + 5]
    } else if bi == 2 {
        [tl, tl + 1, tl + 5]
    } else {
        [tl, tl + 1, tl + 4]
    };
    let mut result: Vec<[usize; 3]> = Vec::new();
    result.push(row_p);
    result.push(col_p);
    result.push(block_p);
    result
}

/// Does none of the three cells of a partner triple hold a piece of the same
/// shape as `piece` and the opposing color?
pub fn no_clash(arr: &[Option<Piece>; 3], piece: &Piece) -> (r: bool)
    ensures
        r == (forall|k: int| 0 <= k < 3 ==> !blocks(*piece, arr@[k])),
{
    let c0 = clashes(arr[0], piece);
    let c1 = clashes(arr[1], piece);
    let c2 = clashes(arr[2], piece);
    !(c0 || c1 || c2)
}

/// Does one cell's content block `piece` under the no-clash rule?
fn clashes(cell: Option<Piece>, piece: &Piece) -> (r: bool)
    ensures
        r == blocks(*piece, cell),
{
    match cell {
        Some(p) => to_lower_shape(p.0) == to_lower_shape(piece.0) && is_upper(p.0) != is_upper(
            piece.0,
        ),
        None => false,
    }
}

/// The lower-case representative of a shape character; other characters are
/// handed back unchanged.
fn to_lower_shape(c: char) -> (r: char)
    ensures
        r == shape_of(c),
{
    if c == 'A' {
        'a'
    } else if c == 'B' {
        'b'
    } else if c == 'C' {
        'c'
    } else if c == 'D' {
        'd'
    } else {
        c
    }
}

/// Is the character one of player 0's shape characters?
fn is_upper(c: char) -> (r: bool)
    ensures
        r == is_upper_shape(c),
{
    c == 'A' || c == 'B' || c == 'C' || c == 'D'
}

/// A position decomposes into its row and column.
pub proof fn lemma_pos_decompose(pos: int)
    requires
        1 <= pos <= 16,
    ensures
        pos == 4 * row_of(pos) + col_of(pos) + 1,
        0 <= row_of(pos) <= 3,
        0 <= col_of(pos) <= 3,
{
}

/// Each partner of a position is a valid position, differs from the
/// position, and shares a region with it; and every other position sharing a
/// region appears among the partners.
pub proof fn lemma_partners_characterize(pos: int, q: int)
    requires
        1 <= pos <= 16,
        1 <= q <= 16,
        q != pos,
    ensures
        shares_region(pos, q) <==> (row_partners(pos)[0] == q || row_partners(pos)[1] == q
            || row_partners(pos)[2] == q || col_partners(pos)[0] == q || col_partners(pos)[1] == q
            || col_partners(pos)[2] == q || block_partners(pos)[0] == q || block_partners(
            pos,
        )[1] == q || block_partners(pos)[2] == q),
{
    lemma_pos_decompose(pos);
    lemma_pos_decompose(q);
}

/// Every entry of a partner triple is a valid position other than `pos`.
pub proof fn lemma_partners_in_range(pos: int)
    requires
        1 <= pos <= 16,
    ensures
        forall|k: int|
            0 <= k < 3 ==> 1 <= #[trigger] row_partners(pos)[k] <= 16 && row_partners(pos)[k]
                != pos,
        forall|k: int|
            0 <= k < 3 ==> 1 <= #[trigger] col_partners(pos)[k] <= 16 && col_partners(pos)[k]
                != pos,
        forall|k: int|
            0 <= k < 3 ==> 1 <= #[trigger] block_partners(pos)[k] <= 16 && block_partners(pos)[k]
                != pos,
{
    lemma_pos_decompose(pos);
}

impl Grid {
    /// Checks whether a specified piece can be placed in a specified position
    /// on the grid: the cell must be empty and no region containing it may
    /// hold an opposing piece of the same shape.
    pub fn can_place(&self, piece: &Piece, pos: usize) -> (r: bool)
        requires
            self.wf(),
            1 <= pos <= 16,
        ensures
            r == spec_can_place(self.board(), *piece, pos as int),
    {
        if self.get(pos).is_some() {
            return false;
        }
        let regions = get_all_regions(pos);
        proof {
            lemma_partners_in_range(pos as int);
        }
        let t0 = regions[0];
        proof {
            assert(forall|k: int| 0 <= k < 3 ==> t0@[k] == row_partners(pos as int)[k]);
        }
        let a0: [Option<Piece>; 3] = [self.get(t0[0]), self.get(t0[1]), self.get(t0[2])];
        let t1 = regions[1];
        proof {
            assert(forall|k: int| 0 <= k < 3 ==> t1@[k] == col_partners(pos as int)[k]);
        }
        let a1: [Option<Piece>; 3] = [self.get(t1[0]), self.get(t1[1]), self.get(t1[2])];
        let t2 = regions[2];
        proof {
            assert(forall|k: int| 0 <= k < 3 ==> t2@[k] == block_partners(pos as int)[k]);
        }
        let a2: [Option<Piece>; 3] = [self.get(t2[0]), self.get(t2[1]), self.get(t2[2])];
        let ok = no_clash(&a0, piece) && no_clash(&a1, piece) && no_clash(&a2, piece);
        proof {
            let b = self.board();
            let p = pos as int;
            if ok {
                assert forall|q: int| 1 <= q <= 16 && #[trigger] shares_region(p, q) implies !blocks(
                    *piece,
                    b[q - 1],
                ) by {
                    if q != p {
                        lemma_partners_characterize(p, q);
                    }
                }
            } else {
                if !(forall|k: int| 0 <= k < 3 ==> !blocks(*piece, a0@[k])) {
                    let k = choose|k: int| 0 <= k < 3 && blocks(*piece, a0@[k]);
                    lemma_partners_characterize(p, row_partners(p)[k]);
                    assert(!spec_can_place(b, *piece, p));
                } else if !(forall|k: int| 0 <= k < 3 ==> !blocks(*piece, a1@[k])) {
                    let k = choose|k: int| 0 <= k < 3 && blocks(*piece, a1@[k]);
                    lemma_partners_characterize(p, col_partners(p)[k]);
                    assert(!spec_can_place(b, *piece, p));
                } else {
                    let k = choose|k: int| 0 <= k < 3 && blocks(*piece, a2@[k]);
                    lemma_partners_characterize(p, block_partners(p)[k]);
                    assert(!spec_can_place(b, *piece, p));
                }
            }
        }
        ok
    }

    /// Attempts to add a piece at a specified position.  On a valid placement
    /// the cell is occupied and `Ok(())` returned; otherwise the grid is left
    /// unchanged and the error tells the position range from the placement
    /// rules apart.
    pub fn try_add(&mut self, piece: Piece, pos: usize) -> (r: Result<(), GridError>)
        requires
            old(self).wf(),
        ensures
            final(self).wf(),
            final(self).pieces_of(Player(0)) == old(self).pieces_of(Player(0)),
            final(self).pieces_of(Player(1)) == old(self).pieces_of(Player(1)),
            !(1 <= pos <= 16) ==> r == Err::<(), GridError>(GridError::PositionOutOfRange)
                && final(self).board() == old(self).board(),
            1 <= pos <= 16 && is_piece_char(piece.0) && spec_can_place(
                old(self).board(),
                piece,
                pos as int,
            ) ==> r == Ok::<(), GridError>(()) && final(self).board() == old(self).board().update(
                pos - 1,
                Some(piece),
            ),
            1 <= pos <= 16 && !(is_piece_char(piece.0) && spec_can_place(
                old(self).board(),
                piece,
                pos as int,
            )) ==> r == Err::<(), GridError>(GridError::IllegalPlacement) && final(self).board()
                == old(self).board(),
    {
        if pos < 1 || pos > 16 {
            return Err(GridError::PositionOutOfRange);
        }
        if !is_piece(piece.0) {
            return Err(GridError::IllegalPlacement);
        }
        if self.can_place(&piece, pos) {
            self.data[pos - 1] = Some(piece);
            proof {
                assert(self.board() =~= old(self).board().update(pos - 1, Some(piece)));
                assert(self.pieces_of(Player(0)) == old(self).pieces_of(Player(0)));
                assert(self.pieces_of(Player(1)) == old(self).pieces_of(Player(1)));
                assert forall|i: int| 0 <= i < 16 implies (#[trigger] self.board()[i] matches Some(
                    p,
                ) ==> is_piece_char(p.0)) by {
                    if i != pos - 1 {
                        assert(self.board()[i] == old(self).board()[i]);
                    }
                }
            }
            Ok(())
        } else {
            Err(GridError::IllegalPlacement)
        }
    }

    /// Checks if a specific piece is owned by a player.
    pub fn player_has_piece(&self, piece: &Piece, player: Player) -> (r: bool)
        ensures
            r == ((player.0 == 0 || player.0 == 1) && self.pieces_of(player).contains(*piece)),
    {
        if player.0 != 0 && player.0 != 1 {
            return false;
        }
        let pieces = if player.0 == 0 {
            &self.player_0_pieces
        } else {
            &self.player_1_pieces
        };
        let n = pieces.len();
        let mut i: usize = 0;
        while i < n
            invariant
                player.0 == 0 || player.0 == 1,
                n == pieces.len(),
                0 <= i <= n,
                pieces@ == self.pieces_of(player),
                forall|j: int| 0 <= j < i ==> pieces@[j] != *piece,
            decreases n - i,
        {
            if pieces[i].0 == piece.0 {
                proof {
                    assert(pieces@[i as int] == *piece);
                }
                return true;
            }
            i = i + 1;
        }
        false
    }

    /// Attempts to remove a piece from the player's inventory: the first copy
    /// of the piece leaves the inventory, or `PieceNotHeld` is returned and
    /// nothing changes.
    pub fn try_remove(&mut self, piece: Piece, player: Player) -> (r: Result<(), GridError>)
        requires
            old(self).wf(),
        ensures
            final(self).wf(),
            final(self).board() == old(self).board(),
            player.0 == 0 ==> final(self).pieces_of(Player(1)) == old(self).pieces_of(Player(1)),
            player.0 != 0 ==> final(self).pieces_of(Player(0)) == old(self).pieces_of(Player(0)),
            old(self).pieces_of(player).contains(piece) ==> {
                &&& r == Ok::<(), GridError>(())
                &&& old(self).pieces_of(player).index_of_first(piece) matches Some(i)
                    && final(self).pieces_of(player) == old(self).pieces_of(player).remove(i)
            },
            !old(self).pieces_of(player).contains(piece) ==> r == Err::<(), GridError>(
                GridError::PieceNotHeld,
            ) && final(self).pieces_of(player) == old(self).pieces_of(player),
    {
        let ghost s = old(self).pieces_of(player);
        let r = if player.0 == 0 {
            remove_first(&mut self.player_0_pieces, piece)
        } else {
            remove_first(&mut self.player_1_pieces, piece)
        };
        proof {
            assert(self.board() == old(self).board());
            if player.0 == 0 {
                assert(self.pieces_of(Player(1)) == old(self).pieces_of(Player(1)));
            } else {
                assert(self.pieces_of(Player(0)) == old(self).pieces_of(Player(0)));
            }
            if s.contains(piece) {
                s.index_of_first_ensures(piece);
                let i = s.index_of_first(piece).unwrap();
                s.remove_ensures(i);
                assert forall|j: int| 0 <= j < s.remove(i).len() implies (s.remove(i)[j] == s[j]
                    || s.remove(i)[j] == s[j + 1]) by {}
                if player.0 == 0 {
                    assert(s == old(self).pieces_of(Player(0)));
                    assert(self.pieces_of(Player(0)) == s.remove(i));
                    assert forall|j: int|
                        0 <= j < self.pieces_of(Player(0)).len() implies is_upper_shape(
                        self.pieces_of(Player(0))[j].0,
                    ) by {
                        assert(s.remove(i)[j] == s[j] || s.remove(i)[j] == s[j + 1]);
                    }
                } else {
                    assert(s == old(self).pieces_of(Player(1)));
                    assert(self.pieces_of(Player(1)) == s.remove(i));
                    assert forall|j: int|
                        0 <= j < self.pieces_of(Player(1)).len() implies is_lower_shape(
                        self.pieces_of(Player(1))[j].0,
                    ) by {
                        assert(s.remove(i)[j] == s[j] || s.remove(i)[j] == s[j + 1]);
                    }
                }
            } else {
                assert(self.pieces_of(Player(0)) == old(self).pieces_of(Player(0)));
                assert(self.pieces_of(Player(1)) == old(self).pieces_of(Player(1)));
            }
        }
        r
    }
}

/// Removes the first copy of `piece` from the vector, or reports
/// `PieceNotHeld` and leaves it unchanged.
fn remove_first(v: &mut Vec<Piece>, piece: Piece) -> (r: Result<(), GridError>)
    ensures
        old(v)@.contains(piece) ==> {
            &&& r == Ok::<(), GridError>(())
            &&& old(v)@.index_of_first(piece) matches Some(i) && final(v)@ == old(v)@.remove(i)
        },
        !old(v)@.contains(piece) ==> r == Err::<(), GridError>(GridError::PieceNotHeld)
            && final(v)@ == old(v)@,
{
    let ghost s = v@;
    let n = v.len();
    let mut i: usize = 0;
    while i < n
        invariant
            s == old(v)@,
            n == v.len(),
            0 <= i <= n,
            v@ == s,
            forall|j: int| 0 <= j < i ==> s[j] != piece,
        decreases n - i,
    {
        if v[i].0 == piece.0 {
            proof {
                assert(s[i as int] == piece);
                assert(s.contains(piece));
                s.index_of_first_ensures(piece);
                assert(s.index_of_first(piece) == Some(i as int));
            }
            v.remove(i);
            return Ok(());
        }
        i = i + 1;
    }
    proof {
        assert(!s.contains(piece));
    }
    Err(GridError::PieceNotHeld)
}

/// Is the character one of the eight piece characters?
fn is_piece(c: char) -> (r: bool)
    ensures
        r == is_piece_char(c),
{
    is_upper(c) || c == 'a' || c == 'b' || c == 'c' || c == 'd'
}

/// The piece character of a shape (given as its lower-case representative)
/// in a color.
pub open spec fn colored(shape: char, upper: bool) -> char {
    if !upper {
        shape
    } else if shape == 'a' {
        'A'
    } else if shape == 'b' {
        'B'
    } else if shape == 'c' {
        'C'
    } else {
        'D'
    }
}

/// The `k`-th cell (0-3) of the `j`-th region (0-11): first the four rows,
/// then the four columns, then the four 2x2 blocks.
pub open spec fn region_cell(j: int, k: int) -> int {
    if j < 4 {
        4 * j + k + 1
    } else if j < 8 {
        (j - 4) + 4 * k + 1
    } else {
        8 * ((j - 8) / 2) + 2 * ((j - 8) % 2) + (if k < 2 {
            k
        } else {
            k + 2
        }) + 1
    }
}

/// A region is winning for a color iff each of the four shapes of that color
/// stands on one of the region's cells.
pub open spec fn region_wins(b: Seq<Option<Piece>>, j: int, upper: bool) -> bool {
    forall|s: char|
        is_lower_shape(s) ==> exists|k: int|
            0 <= k < 4 && b[region_cell(j, k) - 1] == Some(Piece(#[trigger] colored(s, upper)))
}

/// The winner a single region yields: player 0 is checked first.
pub open spec fn spec_region_winner(b: Seq<Option<Piece>>, j: int) -> Option<Player> {
    if region_wins(b, j, true) {
        Some(Player(0))
    } else if region_wins(b, j, false) {
        Some(Player(1))
    } else {
        None
    }
}

/// The winner found by scanning regions `j`, `j+1`, ..., 11 in order.
pub open spec fn spec_winner_from(b: Seq<Option<Piece>>, j: int) -> Option<Player>
    decreases 12 - j,
{
    if j < 0 || j >= 12 {
        None
    } else if spec_region_winner(b, j) is Some {
        spec_region_winner(b, j)
    } else {
        spec_winner_from(b, j + 1)
    }
}

/// The winner of the whole board: the first winning region in the fixed
/// region order decides.
pub open spec fn spec_winner(b: Seq<Option<Piece>>) -> Option<Player> {
    spec_winner_from(b, 0)
}

/// Every cell of every region is a valid position.
pub proof fn lemma_region_cells_range(j: int)
    requires
        0 <= j < 12,
    ensures
        forall|k: int| 0 <= k < 4 ==> 1 <= #[trigger] region_cell(j, k) <= 16,
{
}

/// The four cells of the `j`-th region.
fn region_cells(j: usize) -> (r: [usize; 4])
    requires
        j < 12,
    ensures
        forall|k: int| 0 <= k < 4 ==> r@[k] == region_cell(j as int, k),
{
    if j < 4 {
        [4 * j + 1, 4 * j + 2, 4 * j + 3, 4 * j + 4]
    } else if j < 8 {
        let c = j - 4;
        [c + 1, c + 5, c + 9, c + 13]
    } else {
        let bl = j - 8;
        let tl = 8 * (bl / 2) + 2 * (bl % 2) + 1;
        [tl, tl + 1, tl + 4, tl + 5]
    }
}

/// Relies on itertools' `Itertools::unique` (backed by a hash set of the
/// elements already seen): it yields each distinct element of the iterator
/// exactly once, so counting gives the number of distinct characters.
#[verifier::external_body]
fn distinct_count(v: &Vec<char>) -> (r: usize)
    ensures
        r == v@.to_set().len(),
{
    v.iter().copied().unique().count()
}

/// The four piece characters of one color, as a set.
pub open spec fn color_chars(upper: bool) -> Set<char> {
    set![colored('a', upper), colored('b', upper), colored('c', upper), colored('d', upper)]
}

/// If `v` collects exactly the pieces of one color standing on region `j`
/// (with multiplicity), the region is winning for that color iff `v` holds
/// four distinct characters.
proof fn lemma_distinct_shapes(v: Seq<char>, b: Seq<Option<Piece>>, j: int, upper: bool)
    requires
        forall|c: char| #[trigger]
            v.contains(c) ==> (if upper {
                is_upper_shape(c)
            } else {
                is_lower_shape(c)
            }) && exists|m: int| 0 <= m < 4 && b[region_cell(j, m) - 1] == Some(Piece(c)),
        forall|m: int|
            0 <= m < 4 ==> (#[trigger] b[region_cell(j, m) - 1] matches Some(p) ==> ((if upper {
                is_upper_shape(p.0)
            } else {
                is_lower_shape(p.0)
            }) ==> v.contains(p.0))),
    ensures
        (v.to_set().len() == 4) == region_wins(b, j, upper),
{
    broadcast use vstd::set::group_set_axioms;
    broadcast use vstd::seq_lib::seq_to_set_is_finite;

    let s = v.to_set();
    let u = color_chars(upper);
    assert(u.len() == 4) by {
        assert(u =~= Set::empty().insert(colored('a', upper)).insert(colored('b', upper)).insert(
            colored('c', upper),
        ).insert(colored('d', upper)));
    }
    assert(u.finite()) by {
        assert(u =~= Set::empty().insert(colored('a', upper)).insert(colored('b', upper)).insert(
            colored('c', upper),
        ).insert(colored('d', upper)));
    }
    assert forall|c: char| s.contains(c) implies u.contains(c) by {
        assert(v.contains(c));
    }
    assert(s.subset_of(u));
    if s.len() == 4 {
        vstd::set_lib::lemma_subset_equality(s, u);
        assert forall|sh: char| is_lower_shape(sh) implies exists|k: int|
            0 <= k < 4 && b[region_cell(j, k) - 1] == Some(Piece(colored(sh, upper))) by {
            assert(u.contains(colored(sh, upper)));
            assert(v.contains(colored(sh, upper)));
        }
        assert(region_wins(b, j, upper));
    }
    if region_wins(b, j, upper) {
        assert forall|c: char| u.contains(c) implies s.contains(c) by {
            let sh = shape_of(c);
            assert(is_lower_shape(sh) && colored(sh, upper) == c);
            let k = choose|k: int|
                0 <= k < 4 && b[region_cell(j, k) - 1] == Some(Piece(colored(sh, upper)));
            assert(v.contains(c));
        }
        assert(s =~= u);
        assert(s.len() == 4);
    }
}

impl Grid {
    /// The winner a region yields on the current board, if any.
    fn get_winner_from_region(&self, j: usize) -> (r: Option<Player>)
        requires
            self.wf(),
            j < 12,
        ensures
            r == spec_region_winner(self.board(), j as int),
    {
        let cells = region_cells(j);
        proof {
            lemma_region_cells_range(j as int);
        }
        let mut ups: Vec<char> = Vec::new();
        let mut downs: Vec<char> = Vec::new();
        let mut k: usize = 0;
        while k < 4
            invariant
                self.wf(),
                j < 12,
                forall|m: int| 0 <= m < 4 ==> cells@[m] == region_cell(j as int, m),
                forall|m: int| 0 <= m < 4 ==> 1 <= #[trigger] region_cell(j as int, m) <= 16,
                0 <= k <= 4,
                forall|c: char| #[trigger]
                    ups@.contains(c) ==> is_upper_shape(c) && exists|m: int|
                        0 <= m < 4 && self.board()[region_cell(j as int, m) - 1] == Some(Piece(c)),
                forall|c: char| #[trigger]
                    downs@.contains(c) ==> is_lower_shape(c) && exists|m: int|
                        0 <= m < 4 && self.board()[region_cell(j as int, m) - 1] == Some(Piece(c)),
                forall|m: int|
                    0 <= m < k ==> (#[trigger] self.board()[region_cell(j as int, m) - 1] matches
                        Some(p) ==> (is_upper_shape(p.0) ==> ups@.contains(p.0)) && (is_lower_shape(
                        p.0,
                    ) ==> downs@.contains(p.0))),
            decreases 4 - k,
        {
            let pos = cells[k];
            proof {
                assert(pos == region_cell(j as int, k as int));
                assert(1 <= pos <= 16);
            }
            let ghost ups0 = ups@;
            let ghost downs0 = downs@;
            match self.get(pos) {
                Some(p) => {
                    if is_upper(p.0) {
                        ups.push(p.0);
                        proof {
                            assert(ups@ == ups0.push(p.0));
                            assert(self.board()[region_cell(j as int, k as int) - 1] == Some(
                                Piece(p.0),
                            ));
                            assert forall|c: char| #[trigger]
                                ups@.contains(c) implies is_upper_shape(c) && exists|m: int|
                                0 <= m < 4 && self.board()[region_cell(j as int, m) - 1] == Some(
                                Piece(c),
                            ) by {
                                let i = choose|i: int| 0 <= i < ups@.len() && ups@[i] == c;
                                if i < ups0.len() {
                                    assert(ups0[i] == c);
                                    assert(ups0.contains(c));
                                } else {
                                    assert(c == p.0);
                                    assert(0 <= k < 4 && self.board()[region_cell(
                                        j as int,
                                        k as int,
                                    ) - 1] == Some(Piece(c)));
                                }
                            }
                            assert forall|x: char| ups0.contains(x) implies ups@.contains(x) by {
                                let i = choose|i: int| 0 <= i < ups0.len() && ups0[i] == x;
                                assert(ups@[i] == x);
                            }
                            assert(ups@[ups0.len() as int] == p.0);
                            assert(ups@.contains(p.0));
                        }
                    } else {
                        downs.push(p.0);
                        proof {
                            assert(is_lower_shape(p.0));
                            assert(downs@ == downs0.push(p.0));
                            assert(self.board()[region_cell(j as int, k as int) - 1] == Some(
                                Piece(p.0),
                            ));
                            assert forall|c: char| #[trigger]
                                downs@.contains(c) implies is_lower_shape(c) && exists|m: int|
                                0 <= m < 4 && self.board()[region_cell(j as int, m) - 1] == Some(
                                Piece(c),
                            ) by {
                                let i = choose|i: int| 0 <= i < downs@.len() && downs@[i] == c;
                                if i < downs0.len() {
                                    assert(downs0[i] == c);
                                    assert(downs0.contains(c));
                                } else {
                                    assert(c == p.0);
                                    assert(0 <= k < 4 && self.board()[region_cell(
                                        j as int,
                                        k as int,
                                    ) - 1] == Some(Piece(c)));
                                }
                            }
                            assert forall|x: char| downs0.contains(x) implies downs@.contains(
                                x,
                            ) by {
                                let i = choose|i: int| 0 <= i < downs0.len() && downs0[i] == x;
                                assert(downs@[i] == x);
                            }
                            assert(downs@[downs0.len() as int] == p.0);
                            assert(downs@.contains(p.0));
                        }
                    }
                },
                None => {},
            }
            k = k + 1;
        }
        proof {
            lemma_distinct_shapes(ups@, self.board(), j as int, true);
            lemma_distinct_shapes(downs@, self.board(), j as int, false);
        }
        if distinct_count(&ups) == 4 {
            Some(Player(0))
        } else if distinct_count(&downs) == 4 {
            Some(Player(1))
        } else {
            None
        }
    }

    /// Is the player unable to move: no piece remaining in their inventory
    /// has any position where it could legally be placed?
    pub open spec fn spec_stuck(self, player: Player) -> bool {
        forall|i: int, pos: int|
            0 <= i < self.pieces_of(player).len() && 1 <= pos <= 16 ==> !spec_can_place(
                self.board(),
                self.pieces_of(player)[i],
                pos,
            )
    }

    /// A getter for the players' pieces.
    pub fn get_player_pieces(&self, player: Player) -> (r: &Vec<Piece>)
        ensures
            r@ == self.pieces_of(player),
    {
        if player.0 == 0 {
            &self.player_0_pieces
        } else {
            &self.player_1_pieces
        }
    }

    /// Check if the game is a draw: the player has no legal move left, their
    /// inventory being empty or every destination blocked.
    pub fn is_stuck(&self, player: Player) -> (r: bool)
        requires
            self.wf(),
        ensures
            r == self.spec_stuck(player),
    {
        let pieces = if player.0 == 0 {
            &self.player_0_pieces
        } else {
            &self.player_1_pieces
        };
        let n = pieces.len();
        let mut i: usize = 0;
        while i < n
            invariant
                self.wf(),
                pieces@ == self.pieces_of(player),
                n == pieces.len(),
                0 <= i <= n,
                forall|ii: int, p2: int|
                    0 <= ii < i && 1 <= p2 <= 16 ==> !spec_can_place(
                        self.board(),
                        pieces@[ii],
                        p2,
                    ),
            decreases n - i,
        {
            let piece = pieces[i];
            let mut pos: usize = 1;
            while pos <= 16
                invariant
                    self.wf(),
                    pieces@ == self.pieces_of(player),
                    n == pieces.len(),
                    0 <= i < n,
                    piece == pieces@[i as int],
                    1 <= pos <= 17,
                    forall|ii: int, p2: int|
                        0 <= ii < i && 1 <= p2 <= 16 ==> !spec_can_place(
                            self.board(),
                            pieces@[ii],
                            p2,
                        ),
                    forall|p2: int| 1 <= p2 < pos ==> !spec_can_place(self.board(), piece, p2),
                decreases 17 - pos,
            {
                if self.can_place(&piece, pos) {
                    proof {
                        assert(spec_can_place(
                            self.board(),
                            self.pieces_of(player)[i as int],
                            pos as int,
                        ));
                    }
                    return false;
                }
                pos = pos + 1;
            }
            i = i + 1;
        }
        true
    }

    /// Given the current state of the grid, return the winning player, or
    /// none if nobody has won yet.  Regions are scanned in a fixed order:
    /// rows, then columns, then blocks; player 0 is checked before player 1
    /// within each region.
    pub fn get_winner(&self) -> (r: Option<Player>)
        requires
            self.wf(),
        ensures
            r == spec_winner(self.board()),
    {
        let mut j: usize = 0;
        while j < 12
            invariant
                self.wf(),
                0 <= j <= 12,
                spec_winner_from(self.board(), j as int) == spec_winner(self.board()),
            decreases 12 - j,
        {
            let w = self.get_winner_from_region(j);
            if w.is_some() {
                return w;
            }
            j = j + 1;
        }
        None
    }
}

} // verus!
