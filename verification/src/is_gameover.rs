use crate::bitboard::Bitmasks;
use crate::position::Position;
use crate::side::Side;
use vstd::prelude::*;

verus! {

impl Position {
    /// The game has ended: a side is eliminated, a side has reached its goal row
    /// with a capturing piece, or twenty half moves have been played.
    pub open spec fn spec_is_gameover(&self) -> bool {
        ||| self.eliminated(Side::White)
        ||| self.eliminated(Side::Black)
        ||| self.reached_goal(Side::White)
        ||| self.reached_goal(Side::Black)
        ||| self.halfmoves >= 20
    }

    /// Whether the game has ended.
    #[must_use]
    pub fn is_gameover(&self) -> (over: bool)
        ensures
            over == self.spec_is_gameover(),
            over == self.spec_result().is_some(),
            self.wf() ==> over == self@.is_gameover(),
    {
        proof {
            if self.wf() {
                self.lemma_result_of_board();
            }
        }
        let white_rps = self.get_white() & self.get_rps();
        let black_rps = self.get_black() & self.get_rps();

        // Material
        self.get_white().is_empty() || self.get_black().is_empty()
        // Goal reached
         || (white_rps & Bitmasks::BlackHome.board()).is_occupied() || (black_rps
            & Bitmasks::WhiteHome.board()).is_occupied()
        // Halfmoves
         || (self.halfmoves >= 20)
    }

    /// A game is over exactly when it has a result.
    pub proof fn lemma_gameover_iff_result(&self)
        ensures
            self.spec_is_gameover() == self.spec_result().is_some(),
    {
    }
}

} // verus!
