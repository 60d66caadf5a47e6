use crate::mv::Mv;
use vstd::prelude::*;

verus! {

/// What a search answers.
#[derive(Clone, Copy, Debug, PartialEq, Eq, Structural)]
pub struct SearchResult {
    /// The move to play, if there is one.
    pub bestmove: Option<Mv>,
    /// The reply that the search expects.
    pub ponder: Option<Mv>,
    /// Positions looked at.
    pub nodes: u64,
}

impl SearchResult {
    /// The moves of the answer name cells of the board, and there is no
    /// expected reply without a move to play.
    pub open spec fn wf(&self) -> bool {
        &&& self.bestmove matches Some(mv) ==> mv.wf()
        &&& self.ponder matches Some(mv) ==> mv.wf() && self.bestmove is Some
    }

    /// The line that tells the move to play: the move, with the expected reply
    /// where there is one, or `0000` for no move.
    pub open spec fn spec_text(&self) -> Seq<char> {
        match (self.bestmove, self.ponder) {
            (Some(best), Some(ponder)) => "bestmove "@ + best.spec_text() + " ponder "@
                + ponder.spec_text(),
            (Some(best), None) => "bestmove "@ + best.spec_text(),
            _ => "bestmove 0000"@,
        }
    }

    /// The line that tells the move to play.
    pub fn to_string(&self) -> (text: String)
        requires
            self.wf(),
        ensures
            text@ == self.spec_text(),
    {
        match (self.bestmove, self.ponder) {
            (Some(best), Some(ponder)) => {
                let mut text = String::from_str("bestmove ");
                let first = best.to_string();
                text.append(first.as_str());
                text.append(" ponder ");
                let second = ponder.to_string();
                text.append(second.as_str());
                text
            },
            (Some(best), None) => {
                let mut text = String::from_str("bestmove ");
                let first = best.to_string();
                text.append(first.as_str());
                text
            },
            _ => String::from_str("bestmove 0000"),
        }
    }
}

} // verus!
