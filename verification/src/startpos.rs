use crate::number::digits_text;
use crate::position::{Board, Cell, Piece, Position};
use crate::set_fen::{parse_fen, row_text, rows_text, start_text};
use crate::side::Side;
use vstd::prelude::*;

verus! {

/// The kind of the piece that starts on place `file` of a side's home row,
/// seen from that side's left.
pub open spec fn home_piece(file: int) -> Piece {
    if file % 3 == 0 {
        Piece::Rock
    } else if file % 3 == 1 {
        Piece::Paper
    } else {
        Piece::Scissors
    }
}

/// The kind of the piece that starts on place `file` of the row before a
/// side's home row, seen from that side's left.
pub open spec fn front_piece(file: int) -> Piece {
    if file % 3 == 0 {
        Piece::Paper
    } else if file % 3 == 1 {
        Piece::Scissors
    } else {
        Piece::Rock
    }
}

/// What cell `i` holds when a game starts: each side has its two nearest rows
/// full of single pieces, but for two wise pieces, one on the other, in the
/// middle of the long row. The second player's rows are those of the first,
/// turned round.
pub open spec fn start_cell(i: int) -> Cell {
    if 0 <= i < 6 {
        Cell::Single(Side::White, home_piece(i))
    } else if i == 9 {
        Cell::Stack(Side::White, Piece::Wise, Piece::Wise)
    } else if 6 <= i < 13 {
        Cell::Single(Side::White, front_piece(i - 6))
    } else if i == 35 {
        Cell::Stack(Side::Black, Piece::Wise, Piece::Wise)
    } else if 32 <= i < 39 {
        Cell::Single(Side::Black, front_piece(38 - i))
    } else if 39 <= i < 45 {
        Cell::Single(Side::Black, home_piece(44 - i))
    } else {
        Cell::Empty
    }
}

impl Board {
    /// The board from which a game starts, with the first player to move.
    pub open spec fn start() -> Board {
        Board {
            cells: Seq::new(45, |i: int| start_cell(i)),
            turn: Side::White,
            halfmoves: 0,
            fullmoves: 1,
        }
    }
}

/// The text of row `rank` of the board from which a game starts.
pub open spec fn start_row_text(rank: int) -> Seq<char> {
    if rank == 0 {
        seq!['R', '-', 'P', '-', 'S', '-', 'R', '-', 'P', '-', 'S', '-']
    } else if rank == 1 {
        seq!['P', '-', 'S', '-', 'R', '-', 'W', 'W', 'S', '-', 'R', '-', 'P', '-']
    } else if rank == 5 {
        seq!['p', '-', 'r', '-', 's', '-', 'w', 'w', 'r', '-', 's', '-', 'p', '-']
    } else if rank == 6 {
        seq!['s', '-', 'p', '-', 'r', '-', 's', '-', 'p', '-', 'r', '-']
    } else if rank == 3 {
        seq!['7']
    } else {
        seq!['6']
    }
}

#[verifier::spinoff_prover]
#[verifier::rlimit(50)]
proof fn lemma_start_row(rank: int)
    requires
        0 <= rank < 7,
    ensures
        row_text(Board::start().cells, rank, 0, 0) == start_row_text(rank),
{
    reveal_with_fuel(row_text, 9);
    assert(row_text(Board::start().cells, rank, 0, 0) =~= start_row_text(rank));
}

/// The word `startpos` stands for the board from which a game starts.
pub proof fn lemma_startpos()
    ensures
        Board::start().wf(),
        Board::start().fen() == start_text(),
        parse_fen("startpos"@) == Some(Board::start()),
{
    let start = Board::start();
    reveal_strlit("s-p-r-s-p-r-/p-r-s-wwr-s-p-/6/7/6/P-S-R-WWS-R-P-/R-P-S-R-P-S- w 0 1");
    reveal_with_fuel(rows_text, 8);
    reveal_with_fuel(digits_text, 2);
    lemma_start_row(0);
    lemma_start_row(1);
    lemma_start_row(2);
    lemma_start_row(3);
    lemma_start_row(4);
    lemma_start_row(5);
    lemma_start_row(6);
    assert(start.fen() =~= start_text());
    start.lemma_fen_round_trip();
}

impl Position {
    /// The position from which a game starts.
    #[must_use]
    pub fn startpos() -> (pos: Self)
        ensures
            pos.wf(),
            pos@ == Board::start(),
    {
        proof {
            lemma_startpos();
        }
        Self::from_fen("startpos")
    }
}

} // verus!
