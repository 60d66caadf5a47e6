use crate::bitboard::Bitboard;
use crate::layer::Layer;
use crate::number::{int_text, push_int};
use crate::position::{Board, Cell, Position};
use crate::set_fen::{letter_str, piece_letter};
use crate::square::{cell_index, row_width, Square};
use vstd::prelude::*;

verus! {

/// The picture of a cell: two spaces, then the letter of the bottom piece and
/// the letter of the piece on top, with a dot where there is none.
pub open spec fn cell_picture(cell: Cell) -> Seq<char> {
    match cell {
        Cell::Empty => seq![' ', ' ', '.', '.'],
        Cell::Single(side, piece) => seq![' ', ' ', piece_letter(side, piece), '.'],
        Cell::Stack(side, bottom, top) => seq![
            ' ',
            ' ',
            piece_letter(side, bottom),
            piece_letter(side, top),
        ],
    }
}

/// The picture of row `rank` from place `file` on, with the end of the line.
pub open spec fn row_picture(cells: Seq<Cell>, rank: int, file: int) -> Seq<char>
    decreases row_width(rank) - file,
{
    if file >= row_width(rank) {
        seq!['\n']
    } else {
        cell_picture(cells[cell_index(file, rank)]) + row_picture(cells, rank, file + 1)
    }
}

/// What a short row starts with, so that its cells stand between those of the
/// long rows.
pub open spec fn row_inset(rank: int, inset: Seq<char>) -> Seq<char> {
    if rank % 2 == 1 {
        Seq::empty()
    } else {
        inset
    }
}

/// The picture of the rows from `rank` down to the first.
pub open spec fn rows_picture(cells: Seq<Cell>, rank: int) -> Seq<char>
    decreases rank,
{
    let row = row_inset(rank, seq![' ', ' ']) + row_picture(cells, rank, 0);
    if rank <= 0 {
        row
    } else {
        row + rows_picture(cells, rank - 1)
    }
}

impl Board {
    /// The picture of the board: the rows from the top down, then the side to
    /// move and the half moves played, each on a line of its own.
    pub open spec fn picture(self) -> Seq<char> {
        rows_picture(self.cells, 6) + seq!['T', 'u', 'r', 'n', ':', ' '] + self.turn.spec_text()
            + seq!['\n', 'H', 'a', 'l', 'f', 'm', 'o', 'v', 'e', 's', ':', ' '] + int_text(
            self.halfmoves,
        ) + seq!['\n']
    }
}

impl Position {
    /// Appends the picture of row `y`.
    fn push_row_picture(&self, out: &mut String, y: i32)
        requires
            self.wf(),
            0 <= y <= 6,
        ensures
            final(out)@ == old(out)@ + row_inset(y as int, seq![' ', ' ']) + row_picture(
                self@.cells,
                y as int,
                0,
            ),
    {
        let is_long = y % 2 == 1;
        proof {
            reveal_strlit("  ");
            reveal_strlit(".");
            reveal_strlit("\n");
        }
        if !is_long {
            out.append("  ");
        }
        assert(out@ =~= old(out)@ + row_inset(y as int, seq![' ', ' ']));
        let ghost start = out@;
        let width = 6 + y % 2;
        let mut x: i32 = 0;
        while x < width
            invariant
                self.wf(),
                0 <= y <= 6,
                width == row_width(y as int),
                0 <= x <= width,
                out@ + row_picture(self@.cells, y as int, x as int) == start + row_picture(
                    self@.cells,
                    y as int,
                    0,
                ),
            decreases width - x,
        {
            let ghost before = out@;
            proof {
                reveal_strlit("  ");
                reveal_strlit(".");
            }
            out.append("  ");

            let sq = Square::from_coords(x, y);
            proof {
                crate::square::lemma_cell_index_inverse(x as int, y as int);
                self.lemma_cells();
            }
            let bottom = self.get_piece_on(Layer::Lower, sq);
            let top = self.get_piece_on(Layer::Upper, sq);
            let side = self.get_side_on(sq);

            match (bottom, side) {
                (Some(piece), Some(owner)) => out.append(letter_str(owner, piece)),
                _ => out.append("."),
            }
            match (top, side) {
                (Some(piece), Some(owner)) => out.append(letter_str(owner, piece)),
                _ => out.append("."),
            }
            proof {
                assert(out@ =~= before + cell_picture(self@.cells[sq.0 as int]));
                assert(out@ + row_picture(self@.cells, y as int, x + 1) =~= before + row_picture(
                    self@.cells,
                    y as int,
                    x as int,
                ));
            }
            x += 1;
        }
        out.append("\n");
        proof {
            assert(out@ =~= start + row_picture(self@.cells, y as int, 0));
        }
    }

    /// The picture of the position, for people to read.
    pub fn to_string(&self) -> (picture: String)
        requires
            self.wf(),
        ensures
            picture@ == self@.picture(),
    {
        let mut out = String::new();
        let mut y: i32 = 6;
        while y > 0
            invariant
                self.wf(),
                0 <= y <= 6,
                out@ + rows_picture(self@.cells, y as int) == rows_picture(self@.cells, 6),
            decreases y,
        {
            let ghost before = out@;
            self.push_row_picture(&mut out, y);
            proof {
                assert(out@ + rows_picture(self@.cells, y - 1) =~= before + rows_picture(
                    self@.cells,
                    y as int,
                ));
            }
            y -= 1;
        }
        self.push_row_picture(&mut out, 0);
        assert(out@ =~= rows_picture(self@.cells, 6));

        proof {
            reveal_strlit("Turn: ");
            reveal_strlit("\nHalfmoves: ");
            reveal_strlit("\n");
        }
        out.append("Turn: ");
        let turn = self.turn.to_string();
        out.append(turn.as_str());
        out.append("\nHalfmoves: ");
        push_int(&mut out, self.halfmoves);
        out.append("\n");
        assert(out@ =~= self@.picture());
        out
    }
}

/// The picture of row `rank` of a set from place `file` on: a one for each
/// cell of the set and a zero for each other, with the end of the line.
pub open spec fn row_bits(cells: Set<int>, rank: int, file: int) -> Seq<char>
    decreases row_width(rank) - file,
{
    if file >= row_width(rank) {
        seq!['\n']
    } else {
        seq![
            ' ',
            if cells.contains(cell_index(file, rank)) {
                '1'
            } else {
                '0'
            },
        ] + row_bits(cells, rank, file + 1)
    }
}

/// The picture of the rows of a set from `rank` down to the first.
pub open spec fn rows_bits(cells: Set<int>, rank: int) -> Seq<char>
    decreases rank,
{
    let row = row_inset(rank, seq![' ']) + row_bits(cells, rank, 0);
    if rank <= 0 {
        row
    } else {
        row + rows_bits(cells, rank - 1)
    }
}

impl Bitboard {
    /// Appends the picture of row `y`.
    fn push_row_bits(&self, out: &mut String, y: i32)
        requires
            0 <= y <= 6,
        ensures
            final(out)@ == old(out)@ + row_inset(y as int, seq![' ']) + row_bits(
                self@,
                y as int,
                0,
            ),
    {
        let is_long = y % 2 == 1;
        proof {
            reveal_strlit(" ");
            reveal_strlit(" 1");
            reveal_strlit(" 0");
            reveal_strlit("\n");
        }
        if !is_long {
            out.append(" ");
        }
        assert(out@ =~= old(out)@ + row_inset(y as int, seq![' ']));
        let ghost start = out@;
        let width = 6 + y % 2;
        let mut x: i32 = 0;
        while x < width
            invariant
                0 <= y <= 6,
                width == row_width(y as int),
                0 <= x <= width,
                out@ + row_bits(self@, y as int, x as int) == start + row_bits(self@, y as int, 0),
            decreases width - x,
        {
            let ghost before = out@;
            let sq = Square::from_coords(x, y);
            proof {
                crate::square::lemma_cell_index_inverse(x as int, y as int);
                reveal_strlit(" 1");
                reveal_strlit(" 0");
            }
            if self.is_set(&sq) {
                out.append(" 1");
            } else {
                out.append(" 0");
            }
            proof {
                assert(out@ + row_bits(self@, y as int, x + 1) =~= before + row_bits(
                    self@,
                    y as int,
                    x as int,
                ));
            }
            x += 1;
        }
        out.append("\n");
        proof {
            assert(out@ =~= start + row_bits(self@, y as int, 0));
        }
    }

    /// The picture of the set, for people to read: the rows from the top down.
    pub fn to_string(&self) -> (picture: String)
        ensures
            picture@ == rows_bits(self@, 6),
    {
        let mut out = String::new();
        let mut y: i32 = 6;
        while y > 0
            invariant
                0 <= y <= 6,
                out@ + rows_bits(self@, y as int) == rows_bits(self@, 6),
            decreases y,
        {
            let ghost before = out@;
            self.push_row_bits(&mut out, y);
            proof {
                assert(out@ + rows_bits(self@, y - 1) =~= before + rows_bits(self@, y as int));
            }
            y -= 1;
        }
        self.push_row_bits(&mut out, 0);
        assert(out@ =~= rows_bits(self@, 6));
        out
    }
}

} // verus!
