use crate::layer::Layer;
use crate::number::{digit_char, int_text, parse_int, push_int, read_int};
use crate::position::{Board, Cell, Piece, Position};
use crate::side::Side;
use crate::square::{cell_index, on_board, row_width, Square};
use vstd::prelude::*;

verus! {

/// The side and kind that a letter of the board text stands for: upper case for
/// the first player, lower case for the second.
pub open spec fn letter_piece(c: char) -> Option<(Side, Piece)> {
    if c == 'R' {
        Some((Side::White, Piece::Rock))
    } else if c == 'P' {
        Some((Side::White, Piece::Paper))
    } else if c == 'S' {
        Some((Side::White, Piece::Scissors))
    } else if c == 'W' {
        Some((Side::White, Piece::Wise))
    } else if c == 'r' {
        Some((Side::Black, Piece::Rock))
    } else if c == 'p' {
        Some((Side::Black, Piece::Paper))
    } else if c == 's' {
        Some((Side::Black, Piece::Scissors))
    } else if c == 'w' {
        Some((Side::Black, Piece::Wise))
    } else {
        None
    }
}

/// The letter of the board text for a piece of the given side and kind.
pub open spec fn piece_letter(side: Side, piece: Piece) -> char {
    match (side, piece) {
        (Side::White, Piece::Rock) => 'R',
        (Side::White, Piece::Paper) => 'P',
        (Side::White, Piece::Scissors) => 'S',
        (Side::White, Piece::Wise) => 'W',
        (Side::Black, Piece::Rock) => 'r',
        (Side::Black, Piece::Paper) => 'p',
        (Side::Black, Piece::Scissors) => 's',
        (Side::Black, Piece::Wise) => 'w',
    }
}

/// The number of empty cells that a digit of the board text stands for.
pub open spec fn skip_count(c: char) -> Option<int> {
    if c == '1' {
        Some(1)
    } else if c == '2' {
        Some(2)
    } else if c == '3' {
        Some(3)
    } else if c == '4' {
        Some(4)
    } else if c == '5' {
        Some(5)
    } else if c == '6' {
        Some(6)
    } else if c == '7' {
        Some(7)
    } else {
        None
    }
}

/// Where the reading of a board text stands: the cells filled so far, the cell
/// that comes next, and the layer that the next letter goes to.
pub struct Scan {
    pub cells: Seq<Cell>,
    pub file: int,
    pub rank: int,
    pub layer: Layer,
}

impl Scan {
    /// The empty board, before the first cell of the top row.
    pub open spec fn start() -> Scan {
        Scan { cells: Seq::new(45, |i: int| Cell::Empty), file: 0, rank: 6, layer: Layer::Lower }
    }

    /// The state after the character `c`, or none where `c` cannot stand there.
    /// A letter puts a piece on the next cell: the first letter of a cell the
    /// bottom piece, a second letter directly after it a piece of the same side
    /// on top, which closes the cell. A `-` closes the cell, a digit passes over
    /// as many cells, a `/` goes to the start of the row below.
    pub open spec fn step(self, c: char) -> Option<Scan> {
        if let Some((side, piece)) = letter_piece(c) {
            let idx = cell_index(self.file, self.rank);
            if !on_board(self.file, self.rank) {
                None
            } else if self.layer == Layer::Lower {
                if self.cells[idx] == Cell::Empty {
                    Some(
                        Scan {
                            cells: self.cells.update(idx, Cell::Single(side, piece)),
                            layer: Layer::Upper,
                            ..self
                        },
                    )
                } else {
                    None
                }
            } else {
                match self.cells[idx] {
                    Cell::Single(below, bottom) if below == side && piece.may_top(bottom) => Some(
                        Scan {
                            cells: self.cells.update(idx, Cell::Stack(side, bottom, piece)),
                            layer: Layer::Lower,
                            file: self.file + 1,
                            ..self
                        },
                    ),
                    _ => None,
                }
            }
        } else if c == '-' {
            Some(Scan { file: self.file + 1, layer: Layer::Lower, ..self })
        } else if let Some(n) = skip_count(c) {
            Some(Scan { file: self.file + n, layer: Layer::Lower, ..self })
        } else if c == '/' {
            Some(Scan { file: 0, rank: self.rank - 1, layer: Layer::Lower, ..self })
        } else {
            None
        }
    }

    /// The state after the characters of `s`, or none where one of them cannot
    /// stand where it does.
    pub open spec fn run(self, s: Seq<char>) -> Option<Scan>
        decreases s.len(),
    {
        if s.len() == 0 {
            Some(self)
        } else {
            match self.step(s[0]) {
                Some(next) => next.run(s.drop_first()),
                None => None,
            }
        }
    }
}

/// The cells that a board text describes.
pub open spec fn parse_board(s: Seq<char>) -> Option<Seq<Cell>> {
    match Scan::start().run(s) {
        Some(scan) => Some(scan.cells),
        None => None,
    }
}

/// The side that the text names: `w` or `b`, in either case.
pub open spec fn parse_side(s: Seq<char>) -> Option<Side> {
    if s.len() != 1 {
        None
    } else if s[0] == 'w' || s[0] == 'W' {
        Some(Side::White)
    } else if s[0] == 'b' || s[0] == 'B' {
        Some(Side::Black)
    } else {
        None
    }
}

/// Number of characters before the first space.
pub open spec fn field_len(s: Seq<char>) -> nat
    decreases s.len(),
{
    if s.len() == 0 || s[0] == ' ' {
        0
    } else {
        1 + field_len(s.drop_first())
    }
}

/// The text before the first space.
pub open spec fn first_field(s: Seq<char>) -> Seq<char> {
    s.take(field_len(s) as int)
}

/// The text after the first space, if there is a space.
pub open spec fn after_field(s: Seq<char>) -> Option<Seq<char>> {
    if field_len(s) < s.len() {
        Some(s.skip(field_len(s) as int + 1))
    } else {
        None
    }
}

/// The two counters of a position text: what follows the side to move. A
/// counter that is left out is 0 for the half moves and 1 for the full moves;
/// what follows the second counter is not read.
pub open spec fn parse_counters(rest: Option<Seq<char>>) -> Option<(int, int)> {
    match rest {
        None => Some((0, 1)),
        Some(s) => match parse_int(first_field(s)) {
            None => None,
            Some(half) => match after_field(s) {
                None => Some((half, 1)),
                Some(t) => match parse_int(first_field(t)) {
                    None => None,
                    Some(full) => Some((half, full)),
                },
            },
        },
    }
}

/// The board that a position text describes: the cells, the side to move and
/// the two counters, with one space between them.
pub open spec fn parse_record(s: Seq<char>) -> Option<Board> {
    match (parse_board(first_field(s)), after_field(s)) {
        (Some(cells), Some(rest)) => match (
            parse_side(first_field(rest)),
            parse_counters(after_field(rest)),
        ) {
            (Some(turn), Some((halfmoves, fullmoves))) => Some(
                Board { cells, turn, halfmoves, fullmoves },
            ),
            _ => None,
        },
        _ => None,
    }
}

/// The text of the position from which a game starts.
pub open spec fn start_text() -> Seq<char> {
    "s-p-r-s-p-r-/p-r-s-wwr-s-p-/6/7/6/P-S-R-WWS-R-P-/R-P-S-R-P-S- w 0 1"@
}

/// The board that a text describes: a position text, or the word `startpos`
/// for the position from which a game starts.
pub open spec fn parse_fen(s: Seq<char>) -> Option<Board> {
    if s == "startpos"@ {
        parse_record(start_text())
    } else {
        parse_record(s)
    }
}

/// The characters of `s`.
pub(crate) fn chars_of(s: &str) -> (v: Vec<char>)
    ensures
        v@ == s@,
{
    let n = s.unicode_len();
    let mut v: Vec<char> = Vec::new();
    let mut i: usize = 0;
    while i < n
        invariant
            0 <= i <= n,
            n == s@.len(),
            v@ == s@.take(i as int),
        decreases n - i,
    {
        v.push(s.get_char(i));
        i += 1;
        assert(v@ =~= s@.take(i as int));
    }
    assert(s@.take(n as int) =~= s@);
    v
}

/// The place of the first space among the first characters without one.
pub proof fn lemma_field_len_is(s: Seq<char>, n: int)
    requires
        0 <= n <= s.len(),
        forall|j: int| 0 <= j < n ==> s[j] != ' ',
        n < s.len() ==> s[n] == ' ',
    ensures
        field_len(s) == n,
    decreases s.len(),
{
    if n > 0 {
        let tail = s.drop_first();
        assert(s[0] != ' ');
        assert forall|j: int| 0 <= j < n - 1 implies tail[j] != ' ' by {
            assert(tail[j] == s[j + 1]);
        }
        lemma_field_len_is(tail, n - 1);
    }
}

/// The end of the field that starts at `from`: the place of the next space, or
/// the end of the text.
fn field_end(v: &Vec<char>, from: usize) -> (end: usize)
    requires
        from <= v.len(),
    ensures
        from <= end <= v.len(),
        end - from == field_len(v@.skip(from as int)),
        first_field(v@.skip(from as int)) == v@.subrange(from as int, end as int),
        after_field(v@.skip(from as int)) == if end < v.len() {
            Some(v@.skip(end + 1))
        } else {
            None
        },
{
    let mut end = from;
    while end < v.len() && v[end] != ' '
        invariant
            from <= end <= v.len(),
            forall|j: int| from <= j < end ==> v@[j] != ' ',
        decreases v.len() - end,
    {
        end += 1;
    }
    proof {
        let s = v@.skip(from as int);
        lemma_field_len_is(s, end - from);
        assert(s.take(end - from) =~= v@.subrange(from as int, end as int));
        if end < v.len() {
            assert(s.skip(end - from + 1) =~= v@.skip(end + 1));
        }
    }
    end
}

/// The side and kind that the letter `c` stands for.
fn piece_of(c: char) -> (r: Option<(Side, Piece)>)
    ensures
        r == letter_piece(c),
{
    if c == 'R' {
        Some((Side::White, Piece::Rock))
    } else if c == 'P' {
        Some((Side::White, Piece::Paper))
    } else if c == 'S' {
        Some((Side::White, Piece::Scissors))
    } else if c == 'W' {
        Some((Side::White, Piece::Wise))
    } else if c == 'r' {
        Some((Side::Black, Piece::Rock))
    } else if c == 'p' {
        Some((Side::Black, Piece::Paper))
    } else if c == 's' {
        Some((Side::Black, Piece::Scissors))
    } else if c == 'w' {
        Some((Side::Black, Piece::Wise))
    } else {
        None
    }
}

/// The number of empty cells that the digit `c` stands for.
fn skip_of(c: char) -> (r: Option<i32>)
    ensures
        match r {
            Some(n) => skip_count(c) == Some(n as int),
            None => skip_count(c) is None,
        },
{
    if c == '1' {
        Some(1)
    } else if c == '2' {
        Some(2)
    } else if c == '3' {
        Some(3)
    } else if c == '4' {
        Some(4)
    } else if c == '5' {
        Some(5)
    } else if c == '6' {
        Some(6)
    } else if c == '7' {
        Some(7)
    } else {
        None
    }
}

/// Reading a text goes on after a first part as it would from the state after it.
pub proof fn lemma_run_split(scan: Scan, a: Seq<char>, b: Seq<char>)
    ensures
        scan.run(a + b) == match scan.run(a) {
            Some(mid) => mid.run(b),
            None => None,
        },
    decreases a.len(),
{
    if a.len() == 0 {
        assert(a + b =~= b);
    } else {
        assert((a + b).drop_first() =~= a.drop_first() + b);
        match scan.step(a[0]) {
            Some(next) => {
                lemma_run_split(next, a.drop_first(), b);
            },
            None => {},
        }
    }
}

/// Reads the board text that the characters of `v` from `start` up to `end` spell.
fn read_board(v: &Vec<char>, start: usize, end: usize) -> (r: Option<Position>)
    requires
        start <= end <= v.len(),
    ensures
        match r {
            Some(pos) => pos.wf() && parse_board(v@.subrange(start as int, end as int)) == Some(
                pos@.cells,
            ) && pos.turn == Side::White && pos.halfmoves == 0 && pos.fullmoves == 1,
            None => parse_board(v@.subrange(start as int, end as int)) is None,
        },
{
    let mut pos = Position::empty();
    let mut x: i32 = 0;
    let mut y: i32 = 6;
    let mut layer = Layer::Lower;
    let mut i = start;
    let ghost text = v@.subrange(start as int, end as int);
    let ghost mut scan = Scan::start();
    proof {
        assert(pos@.cells =~= scan.cells);
        assert(text.skip(0) =~= text);
    }
    while i < end
        invariant
            start <= i <= end <= v.len(),
            text == v@.subrange(start as int, end as int),
            pos.wf(),
            pos@.cells == scan.cells,
            pos.turn == Side::White,
            pos.halfmoves == 0,
            pos.fullmoves == 1,
            layer == scan.layer,
            scan.file >= 0,
            scan.rank <= 6,
            x == if scan.file < 8 {
                scan.file
            } else {
                8
            },
            y == if scan.rank > -1 {
                scan.rank
            } else {
                -1
            },
            Scan::start().run(text) == scan.run(text.skip(i - start)),
        decreases end - i,
    {
        let c = v[i];
        let ghost rest = text.skip(i - start);
        proof {
            assert(rest[0] == c);
            assert(rest.drop_first() =~= text.skip(i + 1 - start));
        }
        if let Some((side, piece)) = piece_of(c) {
            if !(y >= 0 && x < 6 + y % 2) {
                return None;
            }
            let sq = Square::from_coords(x, y);
            proof {
                crate::square::lemma_cell_index_inverse(x as int, y as int);
            }
            match layer {
                Layer::Lower => {
                    if pos.get_side_on(sq).is_some() {
                        return None;
                    }
                    proof {
                        pos.lemma_cells();
                    }
                    pos.place(sq, side, piece);
                    layer = Layer::Upper;
                },
                Layer::Upper => {
                    let below = pos.get_side_on(sq);
                    let bottom = pos.get_piece_on(Layer::Lower, sq);
                    let top = pos.get_piece_on(Layer::Upper, sq);
                    proof {
                        pos.lemma_cells();
                    }
                    match (below, bottom, top) {
                        (Some(owner), Some(kind), None) => {
                            if owner != side || (piece == Piece::Wise && kind != Piece::Wise) {
                                return None;
                            }
                            pos.stack_on(sq, piece);
                        },
                        _ => {
                            return None;
                        },
                    }
                    layer = Layer::Lower;
                    x = x + 1;
                },
            }
        } else if c == '-' {
            x = if x < 8 {
                x + 1
            } else {
                8
            };
            layer = Layer::Lower;
        } else if let Some(n) = skip_of(c) {
            x = if x + n < 8 {
                x + n
            } else {
                8
            };
            layer = Layer::Lower;
        } else if c == '/' {
            x = 0;
            y = if y > -1 {
                y - 1
            } else {
                -1
            };
            layer = Layer::Lower;
        } else {
            return None;
        }
        proof {
            scan = scan.step(c).unwrap();
        }
        i += 1;
    }
    proof {
        assert(text.skip(end - start).len() == 0);
    }
    Some(pos)
}

/// Reads the side that the characters of `v` from `start` up to `end` name.
fn read_side(v: &Vec<char>, start: usize, end: usize) -> (r: Option<Side>)
    requires
        start <= end <= v.len(),
    ensures
        r == parse_side(v@.subrange(start as int, end as int)),
{
    if end - start != 1 {
        None
    } else if v[start] == 'w' || v[start] == 'W' {
        Some(Side::White)
    } else if v[start] == 'b' || v[start] == 'B' {
        Some(Side::Black)
    } else {
        None
    }
}

/// Reads the two counters that follow the side to move, from `from` on.
fn read_counters(v: &Vec<char>, from: usize) -> (r: Option<(i32, i32)>)
    requires
        from <= v.len(),
    ensures
        match r {
            Some((half, full)) => parse_counters(Some(v@.skip(from as int))) == Some(
                (half as int, full as int),
            ),
            None => parse_counters(Some(v@.skip(from as int))) is None,
        },
{
    let half_end = field_end(v, from);
    match read_int(v, from, half_end) {
        None => None,
        Some(half) => {
            if half_end == v.len() {
                Some((half, 1))
            } else {
                let full_end = field_end(v, half_end + 1);
                match read_int(v, half_end + 1, full_end) {
                    None => None,
                    Some(full) => Some((half, full)),
                }
            }
        },
    }
}

/// Reads the position text that the characters of `v` spell.
fn read_record(v: &Vec<char>) -> (r: Option<Position>)
    ensures
        match r {
            Some(pos) => pos.wf() && parse_record(v@) == Some(pos@),
            None => parse_record(v@) is None,
        },
{
    proof {
        assert(v@.skip(0) =~= v@);
    }
    let board_end = field_end(v, 0);
    let Some(mut pos) = read_board(v, 0, board_end) else {
        return None;
    };
    if board_end == v.len() {
        return None;
    }
    let side_end = field_end(v, board_end + 1);
    let Some(turn) = read_side(v, board_end + 1, side_end) else {
        return None;
    };
    let counters = if side_end == v.len() {
        Some((0, 1))
    } else {
        read_counters(v, side_end + 1)
    };
    let Some((halfmoves, fullmoves)) = counters else {
        return None;
    };
    let ghost placed = pos;
    pos.turn = turn;
    pos.halfmoves = halfmoves;
    pos.fullmoves = fullmoves;
    proof {
        pos.lemma_same_sets(&placed);
    }
    Some(pos)
}

impl Position {
    /// Reads a position from its text, or the starting position from the word
    /// `startpos`; nothing where the text does not describe a position.
    pub fn try_from_fen(fen: &str) -> (r: Option<Position>)
        ensures
            match r {
                Some(pos) => pos.wf() && parse_fen(fen@) == Some(pos@),
                None => parse_fen(fen@) is None,
            },
    {
        let v = chars_of(fen);
        proof {
            reveal_strlit("startpos");
        }
        if v.len() == 8 && v[0] == 's' && v[1] == 't' && v[2] == 'a' && v[3] == 'r' && v[4] == 't'
            && v[5] == 'p' && v[6] == 'o' && v[7] == 's' {
            assert(fen@ =~= "startpos"@);
            let start = chars_of(
                "s-p-r-s-p-r-/p-r-s-wwr-s-p-/6/7/6/P-S-R-WWS-R-P-/R-P-S-R-P-S- w 0 1",
            );
            read_record(&start)
        } else {
            read_record(&v)
        }
    }

    /// Sets the position to the one that `fen` describes.
    pub fn set_fen(&mut self, fen: &str)
        requires
            parse_fen(fen@) is Some,
        ensures
            final(self).wf(),
            Some(final(self)@) == parse_fen(fen@),
    {
        *self = Self::try_from_fen(fen).unwrap();
    }

    /// The position that `fen` describes.
    #[must_use]
    pub fn from_fen(fen: &str) -> (pos: Self)
        requires
            parse_fen(fen@) is Some,
        ensures
            pos.wf(),
            Some(pos@) == parse_fen(fen@),
    {
        let mut pos = Self::empty();
        pos.set_fen(fen);
        pos
    }
}

/// The text of a run of `run` empty cells: its digit, or nothing for no cell.
pub open spec fn run_text(run: int) -> Seq<char> {
    if run > 0 {
        seq![digit_char(run)]
    } else {
        Seq::empty()
    }
}

/// The text of a cell that is not empty: the letter of its bottom piece, then
/// the letter of the piece on top, or `-` where there is none.
pub open spec fn cell_text(cell: Cell) -> Seq<char> {
    match cell {
        Cell::Empty => Seq::empty(),
        Cell::Single(side, piece) => seq![piece_letter(side, piece), '-'],
        Cell::Stack(side, bottom, top) => seq![piece_letter(side, bottom), piece_letter(side, top)],
    }
}

/// The text of row `rank` from place `file` on, after `run` empty cells that
/// are not yet written.
pub open spec fn row_text(cells: Seq<Cell>, rank: int, file: int, run: int) -> Seq<char>
    decreases row_width(rank) - file,
{
    if file >= row_width(rank) {
        run_text(run)
    } else if cells[cell_index(file, rank)] == Cell::Empty {
        row_text(cells, rank, file + 1, run + 1)
    } else {
        run_text(run) + cell_text(cells[cell_index(file, rank)]) + row_text(
            cells,
            rank,
            file + 1,
            0,
        )
    }
}

/// The text of the rows from `rank` down to the first, with `/` between them.
pub open spec fn rows_text(cells: Seq<Cell>, rank: int) -> Seq<char>
    decreases rank,
{
    if rank <= 0 {
        row_text(cells, 0, 0, 0)
    } else {
        row_text(cells, rank, 0, 0) + seq!['/'] + rows_text(cells, rank - 1)
    }
}

/// The letter of the side to move.
pub open spec fn side_letter(side: Side) -> char {
    match side {
        Side::White => 'w',
        Side::Black => 'b',
    }
}

impl Board {
    /// The position text: the rows from the top down, the side to move, the
    /// half moves and the full moves.
    pub open spec fn fen(self) -> Seq<char> {
        rows_text(self.cells, 6) + seq![' ', side_letter(self.turn), ' '] + int_text(
            self.halfmoves,
        ) + seq![' '] + int_text(self.fullmoves)
    }
}

/// The letter of the board text for a piece of the given side and kind.
pub(crate) fn letter_str(side: Side, piece: Piece) -> (s: &'static str)
    ensures
        s@ == seq![piece_letter(side, piece)],
{
    proof {
        reveal_strlit("R");
        reveal_strlit("P");
        reveal_strlit("S");
        reveal_strlit("W");
        reveal_strlit("r");
        reveal_strlit("p");
        reveal_strlit("s");
        reveal_strlit("w");
    }
    let s = match (side, piece) {
        (Side::White, Piece::Rock) => "R",
        (Side::White, Piece::Paper) => "P",
        (Side::White, Piece::Scissors) => "S",
        (Side::White, Piece::Wise) => "W",
        (Side::Black, Piece::Rock) => "r",
        (Side::Black, Piece::Paper) => "p",
        (Side::Black, Piece::Scissors) => "s",
        (Side::Black, Piece::Wise) => "w",
    };
    assert(s@ =~= seq![piece_letter(side, piece)]);
    s
}

/// Appends the text of a run of `run` empty cells.
fn push_run(out: &mut String, run: i32)
    requires
        0 <= run <= 7,
    ensures
        final(out)@ == old(out)@ + run_text(run as int),
{
    if run > 0 {
        let mut digits = String::new();
        push_int(&mut digits, run);
        out.append(digits.as_str());
        proof {
            reveal_with_fuel(crate::number::digits_text, 2);
            assert(digits@ =~= run_text(run as int));
        }
    } else {
        assert(out@ + run_text(run as int) =~= out@);
    }
}

impl Position {
    /// Appends the text of row `y`.
    fn push_row(&self, out: &mut String, y: i32)
        requires
            self.wf(),
            0 <= y <= 6,
        ensures
            final(out)@ == old(out)@ + row_text(self@.cells, y as int, 0, 0),
    {
        let mut num_spaces: i32 = 0;
        let mut x: i32 = 0;
        let width = 6 + y % 2;
        proof {
            self.lemma_cells();
        }
        while x < width
            invariant
                self.wf(),
                0 <= y <= 6,
                width == row_width(y as int),
                0 <= num_spaces <= x <= width,
                out@ + row_text(self@.cells, y as int, x as int, num_spaces as int) == old(out)@
                    + row_text(self@.cells, y as int, 0, 0),
            decreases width - x,
        {
            let sq = Square::from_coords(x, y);
            proof {
                crate::square::lemma_cell_index_inverse(x as int, y as int);
                self.lemma_cells();
            }
            let piece_lower = self.get_piece_on(Layer::Lower, sq);
            let piece_upper = self.get_piece_on(Layer::Upper, sq);
            let side = self.get_side_on(sq);
            let ghost before = out@;
            let ghost cell = self@.cells[sq.0 as int];

            match (side, piece_lower) {
                (Some(owner), Some(bottom)) => {
                    push_run(out, num_spaces);
                    out.append(letter_str(owner, bottom));
                    match piece_upper {
                        Some(top) => {
                            out.append(letter_str(owner, top));
                        },
                        None => {
                            proof {
                                reveal_strlit("-");
                            }
                            out.append("-");
                        },
                    }
                    proof {
                        assert(out@ =~= before + (run_text(num_spaces as int) + cell_text(cell)));
                        assert(out@ + row_text(self@.cells, y as int, x + 1, 0) =~= before
                            + row_text(self@.cells, y as int, x as int, num_spaces as int));
                    }
                    num_spaces = 0;
                },
                _ => {
                    num_spaces += 1;
                },
            }
            x += 1;
        }
        push_run(out, num_spaces);
    }

    /// The text of the position.
    #[must_use]
    pub fn get_fen(&self) -> (fen: String)
        requires
            self.wf(),
        ensures
            fen@ == self@.fen(),
    {
        let mut fen = String::new();

        // Board
        let mut y: i32 = 6;
        while y > 0
            invariant
                self.wf(),
                0 <= y <= 6,
                fen@ + rows_text(self@.cells, y as int) == rows_text(self@.cells, 6),
            decreases y,
        {
            let ghost before = fen@;
            self.push_row(&mut fen, y);
            proof {
                reveal_strlit("/");
            }
            fen.append("/");
            proof {
                assert(fen@ + rows_text(self@.cells, y - 1) =~= before + rows_text(
                    self@.cells,
                    y as int,
                ));
            }
            y -= 1;
        }
        self.push_row(&mut fen, 0);
        assert(fen@ =~= rows_text(self@.cells, 6));

        // Side to move
        proof {
            reveal_strlit(" w ");
            reveal_strlit(" b ");
            reveal_strlit(" ");
        }
        match self.turn {
            Side::White => fen.append(" w "),
            Side::Black => fen.append(" b "),
        }
        assert(fen@ =~= rows_text(self@.cells, 6) + seq![' ', side_letter(self.turn), ' ']);

        // Halfmove counter
        push_int(&mut fen, self.halfmoves);

        // Fullmove counter
        fen.append(" ");
        push_int(&mut fen, self.fullmoves);

        assert(fen@ =~= self@.fen());
        fen
    }
}

} // verus!
