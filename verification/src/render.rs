//! Rendering the grid as a fixed-width text block: four rows of four cells
//! separated by " | ", with a divider line above, between and below the rows.
//! An occupied cell shows a space and its piece's symbol; an empty cell shows
//! its position, right-aligned in two characters.

use crate::grid::{Grid, Piece};
use vstd::prelude::*;

verus! {

/// The digit character for a value 0-9.
pub open spec fn digit_char(d: int) -> char {
    if d == 0 {
        '0'
    } else if d == 1 {
        '1'
    } else if d == 2 {
        '2'
    } else if d == 3 {
        '3'
    } else if d == 4 {
        '4'
    } else if d == 5 {
        '5'
    } else if d == 6 {
        '6'
    } else if d == 7 {
        '7'
    } else if d == 8 {
        '8'
    } else {
        '9'
    }
}

/// The two-character label of an empty cell: its position, right-aligned.
pub open spec fn label_chars(pos: int) -> Seq<char> {
    if pos <= 9 {
        seq![' ', digit_char(pos)]
    } else {
        seq!['1', digit_char(pos - 10)]
    }
}

/// The two characters a cell shows: a space and the piece's symbol when
/// occupied, the position label when empty.
pub open spec fn cell_chars(cell: Option<Piece>, pos: int) -> Seq<char> {
    match cell {
        Some(p) => seq![' ', p.0],
        None => label_chars(pos),
    }
}

/// The separator between two cells of a row.
pub open spec fn sep_chars() -> Seq<char> {
    seq![' ', '|', ' ']
}

/// The divider line between rows: 18 '=' characters.
pub open spec fn divider_chars() -> Seq<char> {
    Seq::new(18, |i: int| '=')
}

/// One rendered row: its four cells joined by separators.
pub open spec fn row_chars(b: Seq<Option<Piece>>, r: int) -> Seq<char> {
    cell_chars(b[4 * r], 4 * r + 1) + sep_chars() + cell_chars(b[4 * r + 1], 4 * r + 2)
        + sep_chars() + cell_chars(b[4 * r + 2], 4 * r + 3) + sep_chars() + cell_chars(
        b[4 * r + 3],
        4 * r + 4,
    )
}

/// The full rendering: the four rows alternating with divider lines.
pub open spec fn render_chars(b: Seq<Option<Piece>>) -> Seq<char> {
    divider_chars() + seq!['\n'] + row_chars(b, 0) + seq!['\n'] + divider_chars() + seq!['\n']
        + row_chars(b, 1) + seq!['\n'] + divider_chars() + seq!['\n'] + row_chars(b, 2)
        + seq!['\n'] + divider_chars() + seq!['\n'] + row_chars(b, 3) + seq!['\n']
        + divider_chars()
}

/// Relies on `String::push`: it appends exactly one character.
#[verifier::external_body]
fn push_char(s: &mut String, c: char)
    ensures
        final(s)@ == old(s)@.push(c),
{
    s.push(c);
}

/// The digit character of a small number.
fn digit(d: usize) -> (c: char)
    requires
        d <= 9,
    ensures
        c == digit_char(d as int),
{
    if d == 0 {
        '0'
    } else if d == 1 {
        '1'
    } else if d == 2 {
        '2'
    } else if d == 3 {
        '3'
    } else if d == 4 {
        '4'
    } else if d == 5 {
        '5'
    } else if d == 6 {
        '6'
    } else if d == 7 {
        '7'
    } else if d == 8 {
        '8'
    } else {
        '9'
    }
}

/// Appends one divider line.
fn push_divider(s: &mut String)
    ensures
        final(s)@ == old(s)@ + divider_chars(),
{
    proof {
        assert(old(s)@ + Seq::new(0 as nat, |k: int| '=') =~= old(s)@);
    }
    let mut i: usize = 0;
    while i < 18
        invariant
            0 <= i <= 18,
            s@ == old(s)@ + Seq::new(i as nat, |k: int| '='),
        decreases 18 - i,
    {
        push_char(s, '=');
        proof {
            assert(s@ =~= old(s)@ + Seq::new((i + 1) as nat, |k: int| '='));
        }
        i = i + 1;
    }
    proof {
        assert(Seq::new(18 as nat, |k: int| '=') =~= divider_chars());
    }
}

/// Appends the separator between two cells.
fn push_sep(s: &mut String)
    ensures
        final(s)@ == old(s)@ + sep_chars(),
{
    push_char(s, ' ');
    push_char(s, '|');
    push_char(s, ' ');
    proof {
        assert(s@ =~= old(s)@ + sep_chars());
    }
}

impl Grid {
    /// Appends the two characters of one cell.
    fn push_cell(&self, s: &mut String, pos: usize)
        requires
            1 <= pos <= 16,
        ensures
            final(s)@ == old(s)@ + cell_chars(self.board()[pos - 1], pos as int),
    {
        match self.get(pos) {
            Some(p) => {
                push_char(s, ' ');
                push_char(s, p.0);
                proof {
                    assert(s@ =~= old(s)@ + cell_chars(self.board()[pos - 1], pos as int));
                }
            },
            None => {
                if pos <= 9 {
                    push_char(s, ' ');
                    push_char(s, digit(pos));
                } else {
                    push_char(s, '1');
                    push_char(s, digit(pos - 10));
                }
                proof {
                    assert(s@ =~= old(s)@ + cell_chars(self.board()[pos - 1], pos as int));
                }
            },
        }
    }

    /// Appends one row of four cells.
    fn push_row(&self, s: &mut String, r: usize)
        requires
            r < 4,
        ensures
            final(s)@ == old(s)@ + row_chars(self.board(), r as int),
    {
        self.push_cell(s, 4 * r + 1);
        push_sep(s);
        self.push_cell(s, 4 * r + 2);
        push_sep(s);
        self.push_cell(s, 4 * r + 3);
        push_sep(s);
        self.push_cell(s, 4 * r + 4);
        proof {
            assert(s@ =~= old(s)@ + row_chars(self.board(), r as int));
        }
    }

    /// The grid as a fixed-width text block, reflecting the occupied and
    /// empty state of all 16 cells at the time of the call.
    pub fn render(&self) -> (r: String)
        ensures
            r@ == render_chars(self.board()),
    {
        let mut s = String::new();
        push_divider(&mut s);
        push_char(&mut s, '\n');
        self.push_row(&mut s, 0);
        push_char(&mut s, '\n');
        push_divider(&mut s);
        push_char(&mut s, '\n');
        self.push_row(&mut s, 1);
        push_char(&mut s, '\n');
        push_divider(&mut s);
        push_char(&mut s, '\n');
        self.push_row(&mut s, 2);
        push_char(&mut s, '\n');
        push_divider(&mut s);
        push_char(&mut s, '\n');
        self.push_row(&mut s, 3);
        push_char(&mut s, '\n');
        push_divider(&mut s);
        proof {
            assert(s@ =~= render_chars(self.board()));
        }
        s
    }
}

} // verus!
