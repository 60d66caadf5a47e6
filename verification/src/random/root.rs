use crate::mv::Mv;
use crate::position::Position;
use crate::searchresult::SearchResult;
use crate::ugi::go::GoSettings;
use rand::seq::SliceRandom;
use vstd::prelude::*;

verus! {

/// Draws one of `moves` with `rand::seq::SliceRandom::choose` on the generator
/// of `rand::thread_rng`. Of an empty list `choose` gives nothing; of any other
/// it gives the element at an index that it draws below the length. Which, no
/// contract says: two calls on one list may differ. Where the system cannot seed
/// the generator, `thread_rng` ends the program.
#[verifier::external_body]
fn draw(moves: &Vec<Mv>) -> (choice: Option<Mv>)
    ensures
        choice is None <==> moves@.len() == 0,
        choice matches Some(mv) ==> moves@.contains(mv),
{
    moves.choose(&mut rand::thread_rng()).copied()
}

/// What the search answers when `choice` was drawn: that move, after one
/// position looked at.
pub fn answer(choice: Option<Mv>) -> (result: SearchResult)
    ensures
        result == (SearchResult { bestmove: choice, ponder: None, nodes: 1 }),
{
    let bestmove = if let Some(mv) = choice {
        Some(mv)
    } else {
        None
    };

    SearchResult { bestmove, ponder: None, nodes: 1 }
}

/// A search that plays any legal move: none where there is none.
pub fn root(pos: &Position, _settings: &GoSettings) -> (result: SearchResult)
    requires
        pos.wf(),
    ensures
        result.bestmove is None <==> pos@.legal_moves().len() == 0,
        result.bestmove matches Some(mv) ==> pos@.legal_moves().contains(mv) && pos@.is_legal(mv),
        result.ponder is None,
        result.nodes == 1,
{
    let legal_moves = pos.legal_moves();
    let choice = draw(&legal_moves);
    proof {
        pos.lemma_cells();
        if let Some(mv) = choice {
            pos@.lemma_legal_moves_exact(mv);
        }
    }
    answer(choice)
}

} // verus!
