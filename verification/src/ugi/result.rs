use crate::result::GameResult;
use vstd::prelude::*;

verus! {

/// How a game has ended, as the protocol names it.
#[derive(Clone, Copy, Debug, PartialEq, Eq, Structural)]
pub enum UGIResult {
    P1win,
    P2win,
    Draw,
}

impl UGIResult {
    /// The protocol's name for `result`: the first player plays white.
    pub open spec fn spec_of(result: GameResult) -> UGIResult {
        match result {
            GameResult::WhiteWin => UGIResult::P1win,
            GameResult::BlackWin => UGIResult::P2win,
            GameResult::Draw => UGIResult::Draw,
        }
    }

    /// The protocol's name for `result`: the first player plays white.
    #[verifier::when_used_as_spec(spec_of)]
    pub fn of(result: GameResult) -> (r: UGIResult)
        ensures
            r == UGIResult::spec_of(result),
    {
        match result {
            GameResult::WhiteWin => UGIResult::P1win,
            GameResult::BlackWin => UGIResult::P2win,
            GameResult::Draw => UGIResult::Draw,
        }
    }
}

} // verus!
