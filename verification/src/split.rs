use crate::mv::Mv;
use crate::position::{Board, Position};
use vstd::prelude::*;

verus! {

impl Board {
    /// For each legal move, the number of lines of play of `depth - 1` moves
    /// after it.
    pub open spec fn split(self, depth: int) -> Seq<(Mv, nat)> {
        Seq::new(
            self.legal_moves().len(),
            |i: int| (self.legal_moves()[i], self.apply(self.legal_moves()[i]).perft(depth - 1)),
        )
    }
}

/// For each legal move of `pos`, the number of lines of play of `depth - 1`
/// moves after it; nothing where a `u64` cannot hold one of them.
#[verifier::spinoff_prover]
#[verifier::rlimit(40)]
pub fn split(pos: &Position, depth: i32) -> (lines: Option<Vec<(Mv, u64)>>)
    requires
        pos.wf(),
        pos.halfmoves < i32::MAX,
        depth > i32::MIN,
    ensures
        match lines {
            Some(v) => v@.len() == pos@.split(depth as int).len() && forall|i: int|
                0 <= i < v@.len() ==> (#[trigger] v@[i]).0 == pos@.split(depth as int)[i].0
                    && v@[i].1 == pos@.split(depth as int)[i].1,
            None => exists|i: int|
                0 <= i < pos@.split(depth as int).len() && (#[trigger] pos@.split(
                    depth as int,
                )[i]).1 > u64::MAX,
        },
{
    let moves = pos.legal_moves();
    let mut lines: Vec<(Mv, u64)> = Vec::new();
    let mut i: usize = 0;
    proof {
        pos.lemma_cells();
    }
    while i < moves.len()
        invariant
            pos.wf(),
            pos@.wf(),
            pos.halfmoves < i32::MAX,
            depth > i32::MIN,
            moves@ == pos@.legal_moves(),
            0 <= i <= moves.len(),
            lines@.len() == i,
            forall|j: int|
                0 <= j < i ==> (#[trigger] lines@[j]).0 == pos@.split(depth as int)[j].0
                    && lines@[j].1 == pos@.split(depth as int)[j].1,
        decreases moves.len() - i,
    {
        let mv = moves[i];
        proof {
            assert(pos@.legal_moves().contains(mv));
            pos@.lemma_legal_move_keeps_wf(mv);
        }
        let npos = pos.after_move(&mv);
        match npos.perft_checked(depth - 1) {
            Some(nodes) => {
                lines.push((mv, nodes));
            },
            None => {
                assert(pos@.split(depth as int)[i as int].1 > u64::MAX);
                return None;
            },
        }
        i += 1;
    }
    Some(lines)
}

} // verus!
