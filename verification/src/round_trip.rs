use crate::layer::Layer;
use crate::number::{digit_char, int_text, lemma_int_round_trip};
use crate::position::{Board, Cell, Piece, Position};
use crate::set_fen::{
    after_field, cell_text, first_field, lemma_field_len_is, lemma_run_split, letter_piece,
    parse_counters, parse_fen, parse_record, piece_letter, row_text, rows_text, run_text,
    side_letter, skip_count, Scan,
};
use crate::side::Side;
use crate::square::{cell_index, row_width};
use vstd::prelude::*;

verus! {

/// The cells of `cells` that have been read when the reading stands before
/// place `file` of row `rank`: the rows above, and the row up to that place.
pub open spec fn filled(cells: Seq<Cell>, rank: int, file: int) -> Seq<Cell> {
    Seq::new(
        45,
        |i: int|
            if i >= cell_index(0, rank + 1) || (cell_index(0, rank) <= i < cell_index(file, rank)) {
                cells[i]
            } else {
                Cell::Empty
            },
    )
}

/// The state of the reading before place `file` of row `rank`, when the last
/// `run` cells before it were empty and are not yet passed over.
pub open spec fn scan_at(cells: Seq<Cell>, rank: int, file: int, run: int) -> Scan {
    Scan { cells: filled(cells, rank, file), file: file - run, rank, layer: Layer::Lower }
}

/// Each letter stands for the piece that it was written for.
pub proof fn lemma_letter_round_trip(side: Side, piece: Piece)
    ensures
        letter_piece(piece_letter(side, piece)) == Some((side, piece)),
        piece_letter(side, piece) != ' ',
{
}

/// Reading the text of a run of empty cells passes over them.
proof fn lemma_read_run(scan: Scan, run: int)
    requires
        0 <= run <= 7,
        scan.layer == Layer::Lower,
    ensures
        scan.run(run_text(run)) == Some(Scan { file: scan.file + run, ..scan }),
{
    if run > 0 {
        let c = digit_char(run);
        assert(skip_count(c) == Some(run));
        assert(letter_piece(c) is None);
        let next = scan.step(c).unwrap();
        assert(run_text(run).drop_first() =~= Seq::<char>::empty());
        assert(next.run(Seq::<char>::empty()) == Some(next));
    }
}

/// Reading the text of a cell that is not empty puts its pieces there.
proof fn lemma_read_cell(scan: Scan, cell: Cell)
    requires
        scan.layer == Layer::Lower,
        0 <= scan.rank < 7,
        0 <= scan.file < row_width(scan.rank),
        scan.cells.len() == 45,
        scan.cells[cell_index(scan.file, scan.rank)] == Cell::Empty,
        cell != Cell::Empty,
        cell.wf(),
    ensures
        scan.run(cell_text(cell)) == Some(
            Scan {
                cells: scan.cells.update(cell_index(scan.file, scan.rank), cell),
                file: scan.file + 1,
                ..scan
            },
        ),
{
    let idx = cell_index(scan.file, scan.rank);
    let text = cell_text(cell);
    crate::square::lemma_cell_index_inverse(scan.file, scan.rank);
    match cell {
        Cell::Empty => {},
        Cell::Single(side, piece) => {
            lemma_letter_round_trip(side, piece);
            let one = scan.step(text[0]).unwrap();
            assert(text.drop_first() =~= seq!['-']);
            assert(letter_piece('-') is None);
            let two = one.step('-').unwrap();
            assert(seq!['-'].drop_first() =~= Seq::<char>::empty());
            assert(two.run(Seq::<char>::empty()) == Some(two));
            assert(one.run(seq!['-']) == Some(two));
        },
        Cell::Stack(side, bottom, top) => {
            lemma_letter_round_trip(side, bottom);
            lemma_letter_round_trip(side, top);
            let one = scan.step(text[0]).unwrap();
            assert(text.drop_first() =~= seq![piece_letter(side, top)]);
            let two = one.step(piece_letter(side, top)).unwrap();
            assert(seq![piece_letter(side, top)].drop_first() =~= Seq::<char>::empty());
            assert(two.run(Seq::<char>::empty()) == Some(two));
            assert(one.run(seq![piece_letter(side, top)]) == Some(two));
            assert(two.cells =~= scan.cells.update(idx, cell));
        },
    }
}

/// Reading the text of the rest of a row fills the rest of the row.
proof fn lemma_read_row(cells: Seq<Cell>, rank: int, file: int, run: int)
    requires
        cells.len() == 45,
        forall|i: int| 0 <= i < 45 ==> (#[trigger] cells[i]).wf(),
        0 <= rank < 7,
        0 <= run <= file <= row_width(rank),
        forall|f: int| file - run <= f < file ==> cells[cell_index(f, rank)] == Cell::Empty,
    ensures
        scan_at(cells, rank, file, run).run(row_text(cells, rank, file, run)) == Some(
            scan_at(cells, rank, row_width(rank), 0),
        ),
        forall|i: int|
            0 <= i < row_text(cells, rank, file, run).len() ==> #[trigger] row_text(
                cells,
                rank,
                file,
                run,
            )[i] != ' ',
    decreases row_width(rank) - file,
{
    let here = scan_at(cells, rank, file, run);
    let width = row_width(rank);
    if file >= width {
        lemma_read_run(here, run);
    } else {
        let idx = cell_index(file, rank);
        let cell = cells[idx];
        crate::square::lemma_cell_index_inverse(file, rank);
        if cell == Cell::Empty {
            lemma_read_row(cells, rank, file + 1, run + 1);
            assert(filled(cells, rank, file + 1) =~= filled(cells, rank, file));
        } else {
            let passed = Scan { file: file, ..here };
            lemma_read_run(here, run);
            lemma_read_cell(passed, cell);
            assert(filled(cells, rank, file).update(idx, cell) =~= filled(cells, rank, file + 1));
            lemma_read_row(cells, rank, file + 1, 0);
            let rest = row_text(cells, rank, file + 1, 0);
            lemma_run_split(passed, cell_text(cell), rest);
            lemma_run_split(here, run_text(run), cell_text(cell) + rest);
            assert(run_text(run) + cell_text(cell) + rest =~= run_text(run) + (cell_text(cell)
                + rest));
            match cell {
                Cell::Empty => {},
                Cell::Single(side, piece) => {
                    lemma_letter_round_trip(side, piece);
                },
                Cell::Stack(side, bottom, top) => {
                    lemma_letter_round_trip(side, bottom);
                    lemma_letter_round_trip(side, top);
                },
            }
        }
    }
}

/// Reading the text of the rows from `rank` down fills them.
proof fn lemma_read_rows(cells: Seq<Cell>, rank: int)
    requires
        cells.len() == 45,
        forall|i: int| 0 <= i < 45 ==> (#[trigger] cells[i]).wf(),
        0 <= rank < 7,
    ensures
        scan_at(cells, rank, 0, 0).run(rows_text(cells, rank)) matches Some(end) && end.cells
            == cells,
        forall|i: int|
            0 <= i < rows_text(cells, rank).len() ==> #[trigger] rows_text(cells, rank)[i] != ' ',
    decreases rank,
{
    lemma_read_row(cells, rank, 0, 0);
    let row = row_text(cells, rank, 0, 0);
    let end = scan_at(cells, rank, row_width(rank), 0);
    if rank == 0 {
        assert(end.cells =~= cells);
    } else {
        lemma_read_rows(cells, rank - 1);
        let below = rows_text(cells, rank - 1);
        let next = scan_at(cells, rank - 1, 0, 0);
        assert(letter_piece('/') is None);
        assert(skip_count('/') is None);
        assert(end.step('/') == Some(next)) by {
            assert(filled(cells, rank, row_width(rank)) =~= filled(cells, rank - 1, 0));
        }
        assert((seq!['/'] + below).drop_first() =~= below);
        assert(end.run(seq!['/'] + below) == next.run(below));
        lemma_run_split(scan_at(cells, rank, 0, 0), row, seq!['/'] + below);
        assert(row + seq!['/'] + below =~= row + (seq!['/'] + below));
    }
}

/// A text without a space, followed by a space and more text, is the first
/// field of the whole, and the rest is what comes after it.
proof fn lemma_first_field(field: Seq<char>, rest: Seq<char>)
    requires
        forall|i: int| 0 <= i < field.len() ==> field[i] != ' ',
    ensures
        first_field(field + seq![' '] + rest) == field,
        after_field(field + seq![' '] + rest) == Some(rest),
{
    let s = field + seq![' '] + rest;
    lemma_field_len_is(s, field.len() as int);
    assert(s.take(field.len() as int) =~= field);
    assert(s.skip(field.len() as int + 1) =~= rest);
}

/// A text without a space is its own first field, and nothing comes after it.
proof fn lemma_last_field(field: Seq<char>)
    requires
        forall|i: int| 0 <= i < field.len() ==> field[i] != ' ',
    ensures
        first_field(field) == field,
        after_field(field) is None,
{
    lemma_field_len_is(field, field.len() as int);
    assert(field.take(field.len() as int) =~= field);
}

impl Board {
    /// The counters of the board fit the counters of a position.
    pub open spec fn counters_fit(self) -> bool {
        i32::MIN <= self.halfmoves <= i32::MAX && i32::MIN <= self.fullmoves <= i32::MAX
    }

    /// The text of a board reads back as the board.
    pub proof fn lemma_fen_round_trip(self)
        requires
            self.wf(),
            self.counters_fit(),
        ensures
            parse_fen(self.fen()) == Some(self),
    {
        let rows = rows_text(self.cells, 6);
        let side = seq![side_letter(self.turn)];
        let half = int_text(self.halfmoves);
        let full = int_text(self.fullmoves);
        let counters = half + seq![' '] + full;
        let tail = side + seq![' '] + counters;
        lemma_read_rows(self.cells, 6);
        lemma_int_round_trip(self.halfmoves);
        lemma_int_round_trip(self.fullmoves);
        assert(Scan::start().cells =~= filled(self.cells, 6, 0));
        assert(self.fen() =~= rows + seq![' '] + tail);
        lemma_first_field(rows, tail);
        lemma_first_field(side, counters);
        lemma_first_field(half, full);
        lemma_last_field(full);
        assert(parse_counters(Some(counters)) == Some((self.halfmoves, self.fullmoves)));
        assert(parse_record(self.fen()) == Some(self));
        assert(self.fen() != "startpos"@) by {
            reveal_strlit("startpos");
            if self.fen() == "startpos"@ {
                assert(self.fen().len() == 8);
                assert(self.fen()[rows.len() as int] == ' ');
                assert("startpos"@[rows.len() as int] != ' ');
            }
        }
    }
}

/// Whether `s` is the text of a board.
pub open spec fn is_canonical(s: Seq<char>) -> bool {
    exists|board: Board| board.wf() && board.counters_fit() && #[trigger] board.fen() == s
}

/// A text that is the text of a board reads as a board whose text it is.
pub proof fn lemma_canonical_round_trip(s: Seq<char>)
    requires
        is_canonical(s),
    ensures
        parse_fen(s) matches Some(board) && board.fen() == s,
{
    let board = choose|board: Board|
        board.wf() && board.counters_fit() && #[trigger] board.fen() == s;
    board.lemma_fen_round_trip();
}

impl Position {
    /// The text of a well-formed position reads back as the same position.
    pub proof fn lemma_fen_round_trip(&self)
        requires
            self.wf(),
        ensures
            is_canonical(self@.fen()),
            parse_fen(self@.fen()) == Some(self@),
            forall|other: Position|
                other.wf() && parse_fen(self@.fen()) == Some(other@) ==> other == *self,
    {
        self.lemma_cells();
        self@.lemma_fen_round_trip();
        assert forall|other: Position|
            other.wf() && parse_fen(self@.fen()) == Some(other@) implies other == *self by {
            other.lemma_view_injective(self);
        }
    }
}

} // verus!
