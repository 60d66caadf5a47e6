use vstd::prelude::*;

verus! {

/// Number of cells in a row: odd rows are long, even rows are short.
pub open spec fn row_width(rank: int) -> int {
    if rank % 2 == 1 {
        7
    } else {
        6
    }
}

/// Whether `(file, rank)` names a cell of the board.
pub open spec fn on_board(file: int, rank: int) -> bool {
    0 <= rank < 7 && 0 <= file < row_width(rank)
}

/// Linear index of the cell at `(file, rank)`.
pub open spec fn cell_index(file: int, rank: int) -> int {
    6 * rank + file + rank / 2
}

/// The row that holds the cell with linear index `idx`.
pub open spec fn rank_of(idx: int) -> int {
    (2 * idx + 1) / 13
}

/// The position within its row of the cell with linear index `idx`.
pub open spec fn file_of(idx: int) -> int {
    idx - cell_index(0, rank_of(idx))
}

/// Every board cell has an index below 45, and `rank_of` / `file_of` invert `cell_index` there.
pub proof fn lemma_cell_index_inverse(file: int, rank: int)
    requires
        on_board(file, rank),
    ensures
        0 <= cell_index(file, rank) < 45,
        rank_of(cell_index(file, rank)) == rank,
        file_of(cell_index(file, rank)) == file,
{
}

/// Every index below 45 is the index of exactly one board cell.
pub proof fn lemma_coords_of_index(idx: int)
    requires
        0 <= idx < 45,
    ensures
        on_board(file_of(idx), rank_of(idx)),
        cell_index(file_of(idx), rank_of(idx)) == idx,
{
}

/// A cell of the board, by its linear index: the rows from the first player's
/// side up, each from left to right.
#[derive(Clone, Copy, PartialEq, Eq, Debug, Structural)]
pub struct Square(pub u8);

impl Square {
    /// A square that names one of the 45 cells.
    pub open spec fn wf(&self) -> bool {
        self.0 < 45
    }

    /// The cell's place in its row, counted from zero.
    pub open spec fn spec_file(&self) -> int {
        file_of(self.0 as int)
    }

    /// The cell's row, counted from zero.
    pub open spec fn spec_rank(&self) -> int {
        rank_of(self.0 as int)
    }

    /// The cell at place `x` of row `y`.
    #[must_use]
    pub fn from_coords(x: i32, y: i32) -> (sq: Self)
        requires
            0 <= x,
            0 <= y,
            cell_index(x as int, y as int) <= u8::MAX,
        ensures
            sq.0 == cell_index(x as int, y as int),
            on_board(x as int, y as int) ==> sq.wf(),
    {
        let idx: i32 = 6 * y + x + y / 2;
        Self(idx as u8)
    }

    /// The cell's place in its row, counted from zero.
    #[must_use]
    pub fn file(&self) -> (f: i32)
        requires
            self.wf(),
        ensures
            f == self.spec_file(),
            on_board(f as int, self.spec_rank()),
            cell_index(f as int, self.spec_rank()) == self.0,
    {
        let lut: [i32; 45] = [
            0, 1, 2, 3, 4, 5, 0, 1, 2, 3, 4, 5, 6, 0, 1, 2, 3, 4, 5, 0, 1, 2, 3, 4, 5, 6, 0, 1, 2,
            3, 4, 5, 0, 1, 2, 3, 4, 5, 6, 0, 1, 2, 3, 4, 5,
        ];
        lut[self.0 as usize]
    }

    /// The cell's row, counted from zero.
    #[must_use]
    pub fn rank(&self) -> (r: i32)
        requires
            self.wf(),
        ensures
            r == self.spec_rank(),
            on_board(self.spec_file(), r as int),
            cell_index(self.spec_file(), r as int) == self.0,
    {
        let lut: [i32; 45] = [
            0, 0, 0, 0, 0, 0, 1, 1, 1, 1, 1, 1, 1, 2, 2, 2, 2, 2, 2, 3, 3, 3, 3, 3, 3, 3, 4, 4, 4,
            4, 4, 4, 5, 5, 5, 5, 5, 5, 5, 6, 6, 6, 6, 6, 6,
        ];
        lut[self.0 as usize]
    }

    /// The square in text: the letter of its row, then the number of its place in
    /// the row, counted from one.
    pub open spec fn spec_text(&self) -> Seq<char> {
        seq![rank_char(self.spec_rank()), file_char(self.spec_file())]
    }

    /// The square in text, such as `a1` for the first cell.
    pub fn to_string(&self) -> (s: String)
        requires
            self.wf(),
        ensures
            s@ == self.spec_text(),
    {
        let mut s = String::from_str(rank_str(self.rank()));
        s.append(file_str(self.file()));
        assert(s@ =~= self.spec_text());
        s
    }
}

/// The letter that names row `rank`.
pub open spec fn rank_char(rank: int) -> char {
    if rank == 0 {
        'a'
    } else if rank == 1 {
        'b'
    } else if rank == 2 {
        'c'
    } else if rank == 3 {
        'd'
    } else if rank == 4 {
        'e'
    } else if rank == 5 {
        'f'
    } else {
        'g'
    }
}

/// The digit that names place `file` of a row.
pub open spec fn file_char(file: int) -> char {
    if file == 0 {
        '1'
    } else if file == 1 {
        '2'
    } else if file == 2 {
        '3'
    } else if file == 3 {
        '4'
    } else if file == 4 {
        '5'
    } else if file == 5 {
        '6'
    } else {
        '7'
    }
}

fn rank_str(rank: i32) -> (s: &'static str)
    requires
        0 <= rank < 7,
    ensures
        s@ == seq![rank_char(rank as int)],
{
    proof {
        reveal_strlit("a");
        reveal_strlit("b");
        reveal_strlit("c");
        reveal_strlit("d");
        reveal_strlit("e");
        reveal_strlit("f");
        reveal_strlit("g");
    }
    let s = if rank == 0 {
        "a"
    } else if rank == 1 {
        "b"
    } else if rank == 2 {
        "c"
    } else if rank == 3 {
        "d"
    } else if rank == 4 {
        "e"
    } else if rank == 5 {
        "f"
    } else {
        "g"
    };
    assert(s@ =~= seq![rank_char(rank as int)]);
    s
}

fn file_str(file: i32) -> (s: &'static str)
    requires
        0 <= file < 7,
    ensures
        s@ == seq![file_char(file as int)],
{
    proof {
        reveal_strlit("1");
        reveal_strlit("2");
        reveal_strlit("3");
        reveal_strlit("4");
        reveal_strlit("5");
        reveal_strlit("6");
        reveal_strlit("7");
    }
    let s = if file == 0 {
        "1"
    } else if file == 1 {
        "2"
    } else if file == 2 {
        "3"
    } else if file == 3 {
        "4"
    } else if file == 4 {
        "5"
    } else if file == 5 {
        "6"
    } else {
        "7"
    };
    assert(s@ =~= seq![file_char(file as int)]);
    s
}

} // verus!

verus! {

/// The six directions in which a cell can have a neighbour.
#[derive(Clone, Copy, PartialEq, Eq, Debug, Structural)]
pub enum Direction {
    Left,
    Right,
    UpLeft,
    UpRight,
    DownLeft,
    DownRight,
}

impl Direction {
    /// The direction of the step back.
    pub open spec fn opposite(self) -> Direction {
        match self {
            Direction::Left => Direction::Right,
            Direction::Right => Direction::Left,
            Direction::UpLeft => Direction::DownRight,
            Direction::UpRight => Direction::DownLeft,
            Direction::DownLeft => Direction::UpRight,
            Direction::DownRight => Direction::UpLeft,
        }
    }

    /// Change of row of one step.
    pub open spec fn rank_step(self) -> int {
        match self {
            Direction::Left | Direction::Right => 0,
            Direction::UpLeft | Direction::UpRight => 1,
            Direction::DownLeft | Direction::DownRight => -1,
        }
    }

    /// Change of horizontal position of one step, in half cells.
    pub open spec fn half_step(self) -> int {
        match self {
            Direction::Left => -2,
            Direction::Right => 2,
            Direction::UpLeft | Direction::DownLeft => -1,
            Direction::UpRight | Direction::DownRight => 1,
        }
    }
}

/// Horizontal position of a cell in half cells: short rows are inset by half a cell.
pub open spec fn half_column(file: int, rank: int) -> int {
    2 * file + if rank % 2 == 0 {
        1int
    } else {
        0int
    }
}

/// The cell one step from cell `idx` in direction `dir`, if the board has one there.
#[verifier::opaque]
pub open spec fn step(idx: int, dir: Direction) -> Option<int> {
    let rank = rank_of(idx) + dir.rank_step();
    let half = half_column(file_of(idx), rank_of(idx)) + dir.half_step();
    let file = if rank % 2 == 0 {
        (half - 1) / 2
    } else {
        half / 2
    };
    if 0 <= idx < 45 && on_board(file, rank) && half_column(file, rank) == half {
        Some(cell_index(file, rank))
    } else {
        None
    }
}

/// Whether `b` is one step from `a`.
pub open spec fn is_adjacent(a: int, b: int) -> bool {
    exists|dir: Direction| step(a, dir) == Some(b)
}

/// Whether `idx` is the first cell of its row.
pub open spec fn is_row_start(idx: int) -> bool {
    idx == 0 || idx == 6 || idx == 13 || idx == 19 || idx == 26 || idx == 32 || idx == 39
}

/// Whether `idx` is the last cell of its row.
pub open spec fn is_row_end(idx: int) -> bool {
    idx == 5 || idx == 12 || idx == 18 || idx == 25 || idx == 31 || idx == 38 || idx == 44
}

/// The first and last cells of the rows, in coordinates.
pub proof fn lemma_row_ends(idx: int)
    requires
        0 <= idx < 45,
    ensures
        is_row_start(idx) <==> file_of(idx) == 0,
        is_row_end(idx) <==> file_of(idx) == row_width(rank_of(idx)) - 1,
{
}

/// First index of row `rank`.
pub open spec fn row_start(rank: int) -> int {
    cell_index(0, rank)
}

/// The value of a step from a cell of row `rank`, where the row is known.
#[verifier::spinoff_prover]
#[verifier::rlimit(40)]
proof fn lemma_step_in_row(idx: int, rank: int, dir: Direction)
    requires
        0 <= rank < 7,
        row_start(rank) <= idx < row_start(rank) + row_width(rank),
    ensures
        rank_of(idx) == rank,
        step(idx, dir) == ({
            let to = rank + dir.rank_step();
            let half = half_column(idx - row_start(rank), rank) + dir.half_step();
            let file = if to % 2 == 0 {
                (half - 1) / 2
            } else {
                half / 2
            };
            if 0 <= to < 7 && 0 <= file < row_width(to) && half_column(file, to) == half {
                Some(row_start(to) + file)
            } else {
                None
            }
        }),
{
    reveal(step);
    assert(rank == 0 || rank == 1 || rank == 2 || rank == 3 || rank == 4 || rank == 5 || rank
        == 6);
    assert(rank_of(idx) == rank);
}

/// The steps from a cell of a short row, in index terms.
#[verifier::spinoff_prover]
#[verifier::rlimit(40)]
proof fn lemma_steps_short(idx: int, rank: int)
    requires
        rank == 0 || rank == 2 || rank == 4 || rank == 6,
        row_start(rank) <= idx < row_start(rank) + 6,
    ensures
        step(idx, Direction::Left) == if idx > row_start(rank) {
            Some(idx - 1)
        } else {
            None
        },
        step(idx, Direction::Right) == if idx < row_start(rank) + 5 {
            Some(idx + 1)
        } else {
            None
        },
        step(idx, Direction::UpLeft) == if rank < 6 {
            Some(idx + 6)
        } else {
            None
        },
        step(idx, Direction::UpRight) == if rank < 6 {
            Some(idx + 7)
        } else {
            None
        },
        step(idx, Direction::DownLeft) == if rank > 0 {
            Some(idx - 7)
        } else {
            None
        },
        step(idx, Direction::DownRight) == if rank > 0 {
            Some(idx - 6)
        } else {
            None
        },
{
    lemma_step_in_row(idx, rank, Direction::Left);
    lemma_step_in_row(idx, rank, Direction::Right);
    lemma_step_in_row(idx, rank, Direction::UpLeft);
    lemma_step_in_row(idx, rank, Direction::UpRight);
    lemma_step_in_row(idx, rank, Direction::DownLeft);
    lemma_step_in_row(idx, rank, Direction::DownRight);
}

/// The steps from a cell of a long row, in index terms.
#[verifier::spinoff_prover]
#[verifier::rlimit(40)]
proof fn lemma_steps_long(idx: int, rank: int)
    requires
        rank == 1 || rank == 3 || rank == 5,
        row_start(rank) <= idx < row_start(rank) + 7,
    ensures
        step(idx, Direction::Left) == if idx > row_start(rank) {
            Some(idx - 1)
        } else {
            None
        },
        step(idx, Direction::Right) == if idx < row_start(rank) + 6 {
            Some(idx + 1)
        } else {
            None
        },
        step(idx, Direction::UpLeft) == if idx > row_start(rank) {
            Some(idx + 6)
        } else {
            None
        },
        step(idx, Direction::UpRight) == if idx < row_start(rank) + 6 {
            Some(idx + 7)
        } else {
            None
        },
        step(idx, Direction::DownLeft) == if idx > row_start(rank) {
            Some(idx - 7)
        } else {
            None
        },
        step(idx, Direction::DownRight) == if idx < row_start(rank) + 6 {
            Some(idx - 6)
        } else {
            None
        },
{
    lemma_step_in_row(idx, rank, Direction::Left);
    lemma_step_in_row(idx, rank, Direction::Right);
    lemma_step_in_row(idx, rank, Direction::UpLeft);
    lemma_step_in_row(idx, rank, Direction::UpRight);
    lemma_step_in_row(idx, rank, Direction::DownLeft);
    lemma_step_in_row(idx, rank, Direction::DownRight);
}

/// In index terms a step is a fixed offset, and it exists unless the cell lies on
/// the matching edge of the board.
#[verifier::spinoff_prover]
pub proof fn lemma_step_offsets(idx: int)
    ensures
        step(idx, Direction::Left) == if 0 <= idx < 45 && !is_row_start(idx) {
            Some(idx - 1)
        } else {
            None
        },
        step(idx, Direction::Right) == if 0 <= idx < 45 && !is_row_end(idx) {
            Some(idx + 1)
        } else {
            None
        },
        step(idx, Direction::UpLeft) == if 0 <= idx < 39 && idx != 6 && idx != 19 && idx != 32 {
            Some(idx + 6)
        } else {
            None
        },
        step(idx, Direction::UpRight) == if 0 <= idx < 38 && idx != 12 && idx != 25 {
            Some(idx + 7)
        } else {
            None
        },
        step(idx, Direction::DownLeft) == if 7 <= idx < 45 && idx != 19 && idx != 32 {
            Some(idx - 7)
        } else {
            None
        },
        step(idx, Direction::DownRight) == if 6 <= idx < 45 && idx != 12 && idx != 25 && idx
            != 38 {
            Some(idx - 6)
        } else {
            None
        },
{
    if 0 <= idx < 45 {
        if idx < 6 {
            lemma_steps_short(idx, 0);
        } else if idx < 13 {
            lemma_steps_long(idx, 1);
        } else if idx < 19 {
            lemma_steps_short(idx, 2);
        } else if idx < 26 {
            lemma_steps_long(idx, 3);
        } else if idx < 32 {
            lemma_steps_short(idx, 4);
        } else if idx < 39 {
            lemma_steps_long(idx, 5);
        } else {
            lemma_steps_short(idx, 6);
        }
    } else {
        reveal(step);
    }
}

/// A step and the step back: `b` lies one step from `a` in direction `dir` exactly
/// when `a` lies one step from `b` in the opposite direction.
pub proof fn lemma_step_back(a: int, b: int, dir: Direction)
    ensures
        step(a, dir) == Some(b) <==> step(b, dir.opposite()) == Some(a),
{
    lemma_step_offsets(a);
    lemma_step_offsets(b);
}

/// A step leads to a cell of the board.
pub proof fn lemma_step_on_board(a: int, dir: Direction)
    ensures
        step(a, dir) matches Some(b) ==> 0 <= a < 45 && 0 <= b < 45 && a != b,
{
    lemma_step_offsets(a);
}

/// Whether `b` is two steps in one direction from `a`, past `mid`.
pub open spec fn is_jump(a: int, mid: int, b: int) -> bool {
    exists|dir: Direction| step(a, dir) == Some(mid) && step(mid, dir) == Some(b)
}

} // verus!
