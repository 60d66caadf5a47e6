use crate::mv::Mv;
use crate::position::{Board, Position};
use vstd::prelude::*;

verus! {

impl Board {
    /// Number of lines of play of `depth` moves: one where `depth` is not
    /// positive; none where the game is over; else the sum, over the legal
    /// moves, of the number of lines of one move less from the board after each.
    pub open spec fn perft(self, depth: int) -> nat
        decreases depth, 0int, 0int,
    {
        if depth <= 0 {
            1
        } else if self.is_gameover() {
            0
        } else if depth == 1 {
            self.legal_moves().len()
        } else {
            self.perft_over(self.legal_moves(), depth - 1)
        }
    }

    /// The sum, over `moves`, of the number of lines of play of `depth` moves
    /// from the board after each.
    pub open spec fn perft_over(self, moves: Seq<Mv>, depth: int) -> nat
        decreases depth, 1int, moves.len(),
    {
        if depth < 0 || moves.len() == 0 {
            0
        } else {
            self.perft_over(moves.drop_last(), depth) + self.apply(moves.last()).perft(depth)
        }
    }

    /// One move more adds the lines of play after it.
    pub proof fn lemma_perft_over_step(self, moves: Seq<Mv>, done: int, depth: int)
        requires
            0 <= done < moves.len(),
            0 <= depth,
        ensures
            self.perft_over(moves.take(done + 1), depth) == self.perft_over(
                moves.take(done),
                depth,
            ) + self.apply(moves[done]).perft(depth),
    {
        assert(moves.take(done + 1).drop_last() =~= moves.take(done));
    }

    /// The sum over the first moves is no more than the sum over all.
    pub proof fn lemma_perft_over_grows(self, moves: Seq<Mv>, done: int, depth: int)
        requires
            0 <= done <= moves.len(),
            0 <= depth,
        ensures
            self.perft_over(moves.take(done), depth) <= self.perft_over(moves, depth),
        decreases moves.len() - done,
    {
        if done < moves.len() {
            self.lemma_perft_over_step(moves, done, depth);
            self.lemma_perft_over_grows(moves, done + 1, depth);
        } else {
            assert(moves.take(done) =~= moves);
        }
    }

    /// Where the game goes on, the lines of play of one move are the legal moves.
    pub proof fn lemma_perft_one(self)
        requires
            !self.is_gameover(),
        ensures
            self.perft(1) == self.legal_moves().len(),
    {
    }
}

impl Position {
    /// Number of lines of play of `depth` moves, or nothing where a `u64` cannot
    /// hold it.
    #[must_use]
    #[verifier::spinoff_prover]
    #[verifier::rlimit(40)]
    pub fn perft_checked(&self, depth: i32) -> (nodes: Option<u64>)
        requires
            self.wf(),
        ensures
            match nodes {
                Some(n) => n == self@.perft(depth as int),
                None => self@.perft(depth as int) > u64::MAX,
            },
        decreases depth,
    {
        proof {
            self.lemma_result_of_board();
        }
        if depth <= 0 {
            Some(1)
        } else if self.is_gameover() {
            Some(0)
        } else if depth == 1 {
            Some(self.count_moves() as u64)
        } else {
            let moves = self.legal_moves();
            let mut nodes = 0u64;
            let mut i: usize = 0;
            let ghost all = self@.legal_moves();

            while i < moves.len()
                invariant
                    self.wf(),
                    !self@.is_gameover(),
                    self.halfmoves < 20,
                    depth > 1,
                    moves@ == all,
                    all == self@.legal_moves(),
                    0 <= i <= moves.len(),
                    nodes == self@.perft_over(all.take(i as int), depth - 1),
                decreases moves.len() - i,
            {
                let mv = moves[i];
                proof {
                    assert(all.contains(mv));
                    self@.lemma_legal_move_keeps_wf(mv);
                    self@.lemma_perft_over_step(all, i as int, depth - 1);
                    self@.lemma_perft_over_grows(all, i + 1, depth - 1);
                }
                let npos = self.after_move(&mv);
                match npos.perft_checked(depth - 1) {
                    Some(below) => {
                        match nodes.checked_add(below) {
                            Some(sum) => {
                                nodes = sum;
                            },
                            None => {
                                return None;
                            },
                        }
                    },
                    None => {
                        return None;
                    },
                }
                i += 1;
            }
            proof {
                assert(all.take(i as int) =~= all);
            }
            Some(nodes)
        }
    }

    /// Number of lines of play of `depth` moves.
    #[must_use]
    pub fn perft(&self, depth: i32) -> (nodes: u64)
        requires
            self.wf(),
            self@.perft(depth as int) <= u64::MAX,
        ensures
            nodes == self@.perft(depth as int),
    {
        self.perft_checked(depth).unwrap()
    }
}

} // verus!
