use crate::bitboard::Bitmasks;
use crate::position::{Board, Piece, Position};
use crate::side::Side;
use vstd::prelude::*;

verus! {

/// How a game has ended.
#[derive(Clone, Copy, PartialEq, Eq, Debug, Structural)]
pub enum GameResult {
    WhiteWin,
    BlackWin,
    Draw,
}

/// The row that `side` has to reach to win: the other side's home row.
pub open spec fn goal_row(side: Side) -> Set<int> {
    match side {
        Side::White => Bitmasks::BlackHome.cells(),
        Side::Black => Bitmasks::WhiteHome.cells(),
    }
}

impl Board {
    /// Cells with a capturing piece, at the bottom or on top.
    pub open spec fn capturing_cells(self) -> Set<int> {
        self.kind_cells(Piece::Rock) + self.kind_cells(Piece::Paper) + self.kind_cells(
            Piece::Scissors,
        )
    }

    /// Whether `side` has no piece left.
    pub open spec fn eliminated(self, side: Side) -> bool {
        self.side_cells(side) == Set::<int>::empty()
    }

    /// Whether `side` has a capturing piece, at the bottom or on top, on its goal row.
    pub open spec fn reached_goal(self, side: Side) -> bool {
        self.side_cells(side).intersect(self.capturing_cells()).intersect(goal_row(side))
            != Set::<int>::empty()
    }

    /// The result of the game: a draw where both sides are eliminated; else a
    /// win for the side that is left alone; else a win for the side that has
    /// reached its goal row, the first player before the second; else a draw
    /// once twenty half moves have been played; else none.
    pub open spec fn result(self) -> Option<GameResult> {
        if self.eliminated(Side::White) && self.eliminated(Side::Black) {
            Some(GameResult::Draw)
        } else if self.eliminated(Side::White) {
            Some(GameResult::BlackWin)
        } else if self.eliminated(Side::Black) {
            Some(GameResult::WhiteWin)
        } else if self.reached_goal(Side::White) {
            Some(GameResult::WhiteWin)
        } else if self.reached_goal(Side::Black) {
            Some(GameResult::BlackWin)
        } else if self.halfmoves >= 20 {
            Some(GameResult::Draw)
        } else {
            None
        }
    }

    /// The game has ended: a side is eliminated, a side has reached its goal row
    /// with a capturing piece, or twenty half moves have been played.
    pub open spec fn is_gameover(self) -> bool {
        ||| self.eliminated(Side::White)
        ||| self.eliminated(Side::Black)
        ||| self.reached_goal(Side::White)
        ||| self.reached_goal(Side::Black)
        ||| self.halfmoves >= 20
    }

    /// A game is over exactly when it has a result.
    pub proof fn lemma_gameover_iff_result(self)
        ensures
            self.is_gameover() == self.result().is_some(),
    {
    }
}

impl Position {
    /// In a well-formed position the sets give the result that the board has.
    pub proof fn lemma_result_of_board(&self)
        requires
            self.wf(),
        ensures
            self.spec_result() == self@.result(),
            self.spec_is_gameover() == self@.is_gameover(),
    {
        self.lemma_cells();
        assert(self.side_set(Side::White) =~= self@.side_cells(Side::White));
        assert(self.side_set(Side::Black) =~= self@.side_cells(Side::Black));
        assert(self.rps_set() =~= self@.capturing_cells());
    }

    /// Whether `side` occupies no cell.
    pub open spec fn eliminated(&self, side: Side) -> bool {
        self.side_set(side) == Set::<int>::empty()
    }

    /// Whether `side` has a capturing piece, in either layer, on its goal row.
    pub open spec fn reached_goal(&self, side: Side) -> bool {
        self.side_set(side).intersect(self.rps_set()).intersect(goal_row(side))
            != Set::<int>::empty()
    }

    /// The result of the game: elimination goes before a reached goal, a reached
    /// goal before the move limit.
    pub open spec fn spec_result(&self) -> Option<GameResult> {
        if self.eliminated(Side::White) && self.eliminated(Side::Black) {
            Some(GameResult::Draw)
        } else if self.eliminated(Side::White) {
            Some(GameResult::BlackWin)
        } else if self.eliminated(Side::Black) {
            Some(GameResult::WhiteWin)
        } else if self.reached_goal(Side::White) {
            Some(GameResult::WhiteWin)
        } else if self.reached_goal(Side::Black) {
            Some(GameResult::BlackWin)
        } else if self.halfmoves >= 20 {
            Some(GameResult::Draw)
        } else {
            None
        }
    }

    /// The result of the game, if it has ended.
    #[must_use]
    pub fn result(&self) -> (res: Option<GameResult>)
        ensures
            res == self.spec_result(),
            self.wf() ==> res == self@.result(),
    {
        proof {
            if self.wf() {
                self.lemma_result_of_board();
            }
        }
        let white_rps = self.get_white() & self.get_rps();
        let black_rps = self.get_black() & self.get_rps();
        let is_white_home = (white_rps & Bitmasks::BlackHome.board()).is_occupied();
        let is_black_home = (black_rps & Bitmasks::WhiteHome.board()).is_occupied();

        // Material
        if self.get_white().is_empty() && self.get_black().is_empty() {
            Some(GameResult::Draw)
        } else if self.get_white().is_empty() && self.get_black().is_occupied() {
            Some(GameResult::BlackWin)
        } else if self.get_black().is_empty() && self.get_white().is_occupied() {
            Some(GameResult::WhiteWin)
        }
        // Goal reached
         else if is_white_home {
            Some(GameResult::WhiteWin)
        } else if is_black_home {
            Some(GameResult::BlackWin)
        }
        // Halfmoves
         else if self.halfmoves >= 20 {
            Some(GameResult::Draw)
        } else {
            None
        }
    }
}

} // verus!
