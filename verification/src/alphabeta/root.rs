use crate::mv::Mv;
use crate::position::{Board, Position};
use crate::result::GameResult;
use crate::searchstats::SearchStats;
use crate::side::Side;
use crate::ugi::go::GoSettings;
use vstd::prelude::*;

verus! {

/// A score beyond every score of a position.
pub const INF_SCORE: i32 = 1_000_000_000;

/// The score of a game that is won at once.
pub const MATE_SCORE: i32 = 100_000_000;

impl Board {
    /// The material of the side to move against that of the other side: a
    /// hundred for each cell that a side holds, with one piece or with two.
    pub open spec fn eval(self) -> int {
        100 * (self.side_cells(self.turn).len() - self.side_cells(self.turn.other()).len())
    }
}

/// The score of `pos` for the side to move, by material.
#[must_use]
pub fn eval(pos: &Position) -> (score: i32)
    requires
        pos.wf(),
    ensures
        score == pos@.eval(),
        -4500 <= score <= 4500,
{
    let us_lower = pos.get_short() & pos.get_us();
    let us_upper = pos.get_tall() & pos.get_us();
    let num_us = us_lower.count() + us_upper.count();

    let them_lower = pos.get_short() & pos.get_them();
    let them_upper = pos.get_tall() & pos.get_them();
    let num_them = them_lower.count() + them_upper.count();

    proof {
        pos.lemma_cells();
        let us = pos@.side_cells(pos.turn);
        let them = pos@.side_cells(pos.turn.other());
        assert(us_lower@ + us_upper@ =~= us);
        assert(them_lower@ + them_upper@ =~= them);
        assert(us_lower@.disjoint(us_upper@));
        assert(them_lower@.disjoint(them_upper@));
        vstd::set_lib::lemma_set_disjoint_lens(us_lower@, us_upper@);
        vstd::set_lib::lemma_set_disjoint_lens(them_lower@, them_upper@);
        assert(pos.sides[0].wf() && pos.sides[1].wf());
        crate::bitboard::lemma_len_on_board(pos.sides[0]);
        crate::bitboard::lemma_len_on_board(pos.sides[1]);
        assert(pos.side_set(Side::White) =~= pos@.side_cells(Side::White));
        assert(pos.side_set(Side::Black) =~= pos@.side_cells(Side::Black));
    }

    100 * (num_us - num_them)
}

/// The larger of two scores.
pub open spec fn better(a: int, b: int) -> int {
    if a >= b {
        a
    } else {
        b
    }
}

impl Board {
    /// The score of a game that has ended with `result`, `ply` moves into a
    /// search, for the side to move: a win is worth more the sooner it comes.
    pub open spec fn final_score(self, result: GameResult, ply: int) -> int {
        match result {
            GameResult::WhiteWin => if self.turn == Side::White {
                MATE_SCORE - ply
            } else {
                -MATE_SCORE + ply
            },
            GameResult::BlackWin => if self.turn == Side::Black {
                MATE_SCORE - ply
            } else {
                -MATE_SCORE + ply
            },
            GameResult::Draw => 0,
        }
    }

    /// The score of the board for the side to move when both sides play the
    /// best moves for `depth` moves: the score of the result where the game
    /// has ended, the material where no move is left to look at, else the best
    /// of what the moves lead to.
    pub open spec fn negamax(self, depth: int, ply: int) -> int
        decreases depth, 0int, 0int,
    {
        match self.result() {
            Some(result) => self.final_score(result, ply),
            None => if depth <= 0 {
                self.eval()
            } else {
                self.best_reply(self.legal_moves(), depth - 1, ply + 1)
            },
        }
    }

    /// The best score that one of `moves` leads to, which is the least score
    /// for the other side after it; below every score where there is no move.
    pub open spec fn best_reply(self, moves: Seq<Mv>, depth: int, ply: int) -> int
        decreases depth, 1int, moves.len(),
    {
        if depth < 0 || moves.len() == 0 {
            -INF_SCORE as int
        } else {
            better(
                self.best_reply(moves.drop_last(), depth, ply),
                -self.apply(moves.last()).negamax(depth, ply),
            )
        }
    }

    /// One move more is no worse.
    pub proof fn lemma_best_reply_step(self, moves: Seq<Mv>, done: int, depth: int, ply: int)
        requires
            0 <= done < moves.len(),
            0 <= depth,
        ensures
            self.best_reply(moves.take(done + 1), depth, ply) == better(
                self.best_reply(moves.take(done), depth, ply),
                -self.apply(moves[done]).negamax(depth, ply),
            ),
    {
        assert(moves.take(done + 1).drop_last() =~= moves.take(done));
    }

    /// The best of all moves is no worse than the best of the first.
    pub proof fn lemma_best_reply_grows(self, moves: Seq<Mv>, done: int, depth: int, ply: int)
        requires
            0 <= done <= moves.len(),
            0 <= depth,
        ensures
            self.best_reply(moves.take(done), depth, ply) <= self.best_reply(moves, depth, ply),
        decreases moves.len() - done,
    {
        if done < moves.len() {
            self.lemma_best_reply_step(moves, done, depth, ply);
            self.lemma_best_reply_grows(moves, done + 1, depth, ply);
        } else {
            assert(moves.take(done) =~= moves);
        }
    }
}

/// What a search within the window from `alpha` to `beta` says of the true
/// score `value` when it answers `score`: at or below `alpha` the true score is
/// no higher than the answer, at or above `beta` it is no lower, and in
/// between the answer is the true score.
pub open spec fn within_window(value: int, score: int, alpha: int, beta: int) -> bool {
    &&& score <= alpha ==> value <= score
    &&& alpha < score < beta ==> value == score
    &&& score >= beta ==> value >= score
}

/// What a search says of the score of the side to move, when for the other side
/// it said `score` of `value` within the window turned round.
pub proof fn lemma_window_turned(value: int, score: int, alpha: int, beta: int)
    requires
        within_window(value, score, -beta, -alpha),
    ensures
        within_window(-value, -score, alpha, beta),
{
}

/// What a search says after one move more: the window has narrowed to what was
/// found best so far, and the answer for the new move is held against that.
pub proof fn lemma_window_step(
    value: int,
    best: int,
    reply_value: int,
    reply: int,
    alpha: int,
    beta: int,
)
    requires
        alpha < beta,
        best < beta,
        within_window(value, best, alpha, beta),
        within_window(reply_value, reply, better(alpha, best), beta),
    ensures
        within_window(better(value, reply_value), better(best, reply), alpha, beta),
{
}

/// Whether `should_stop` never asks to stop.
pub open spec fn never_stops<F: Fn(&SearchStats) -> bool>(should_stop: &F) -> bool {
    forall|stats: SearchStats, stop: bool|
        call_ensures(*should_stop, (&stats,), stop) ==> !stop
}

/// Searches `depth` moves deep for the score of `pos` within the window from
/// `alpha` to `beta`, and leaves a search that `should_stop` stops with the
/// score 0. At the root, where `ply` is 0, it records the move that it found best.
#[verifier::spinoff_prover]
#[verifier::rlimit(50)]
pub fn alphabeta<F: Fn(&SearchStats) -> bool>(
    should_stop: &F,
    stats: &mut SearchStats,
    pos: &Position,
    alpha: i32,
    beta: i32,
    depth: i32,
    ply: i32,
) -> (score: i32)
    requires
        pos.wf(),
        0 <= ply,
        0 <= depth,
        ply + depth <= i32::MAX,
        -INF_SCORE <= alpha < beta <= INF_SCORE,
        forall|seen: SearchStats| call_requires(*should_stop, (&seen,)),
    ensures
        never_stops(should_stop) ==> within_window(
            pos@.negamax(depth as int, ply as int),
            score as int,
            alpha as int,
            beta as int,
        ),
        -i32::MAX <= score,
        ply > 0 ==> final(stats).bestmove == old(stats).bestmove,
        ply == 0 && never_stops(should_stop) && pos@.result() is None && depth > 0
            ==> match final(stats).bestmove {
            Some(mv) => pos@.legal_moves().contains(mv) && (alpha < score < beta ==> score
                == -pos@.apply(mv).negamax(depth - 1, 1)),
            None => score == -INF_SCORE,
        },
    decreases depth,
{
    stats.nodes = stats.nodes.wrapping_add(1);

    let is_root = ply == 0;

    proof {
        pos.lemma_cells();
    }
    match pos.result() {
        Some(GameResult::WhiteWin) => {
            return if pos.turn == Side::White {
                MATE_SCORE - ply
            } else {
                -MATE_SCORE + ply
            };
        },
        Some(GameResult::BlackWin) => {
            return if pos.turn == Side::Black {
                MATE_SCORE - ply
            } else {
                -MATE_SCORE + ply
            };
        },
        Some(GameResult::Draw) => {
            return 0;
        },
        None => {},
    }

    if depth == 0 {
        return eval(pos);
    }
    if should_stop(&*stats) {
        return 0;
    }
    let mut lower = alpha;
    let mut best_score = -INF_SCORE;
    let mut best_move: Option<Mv> = None;

    let moves = pos.legal_moves();
    let mut i: usize = 0;
    let ghost all = pos@.legal_moves();

    while i < moves.len()
        invariant
            pos.wf(),
            pos@.wf(),
            pos@.result() is None,
            pos.halfmoves < 20,
            0 <= ply,
            0 < depth,
            ply + depth <= i32::MAX,
            is_root == (ply == 0),
            forall|seen: SearchStats| call_requires(*should_stop, (&seen,)),
            moves@ == all,
            all == pos@.legal_moves(),
            pos@.negamax(depth as int, ply as int) == pos@.best_reply(all, depth - 1, ply + 1),
            0 <= i <= moves.len(),
            -INF_SCORE <= alpha < beta <= INF_SCORE,
            lower == better(alpha as int, best_score as int),
            lower < beta,
            -INF_SCORE <= best_score,
            stats.bestmove == old(stats).bestmove,
            never_stops(should_stop) ==> within_window(
                pos@.best_reply(all.take(i as int), depth - 1, ply + 1),
                best_score as int,
                alpha as int,
                beta as int,
            ),
            match best_move {
                Some(mv) => all.contains(mv) && (never_stops(should_stop) && alpha < best_score
                    < beta ==> best_score == -pos@.apply(mv).negamax(depth - 1, ply + 1)),
                None => best_score == -INF_SCORE,
            },
        decreases moves.len() - i,
    {
        let mv = moves[i];
        let ghost best_before = best_score;
        proof {
            assert(all.contains(mv));
            pos@.lemma_legal_move_keeps_wf(mv);
            pos@.lemma_best_reply_step(all, i as int, depth - 1, ply + 1);
            pos@.lemma_gameover_iff_result();
        }
        let npos = pos.after_move(&mv);
        let reply = alphabeta(should_stop, stats, &npos, -beta, -lower, depth - 1, ply + 1);
        let score = -reply;
        proof {
            if never_stops(should_stop) {
                let reply_value = npos@.negamax(depth - 1, ply + 1);
                lemma_window_turned(reply_value, reply as int, lower as int, beta as int);
                lemma_window_step(
                    pos@.best_reply(all.take(i as int), depth - 1, ply + 1),
                    best_before as int,
                    -reply_value,
                    score as int,
                    alpha as int,
                    beta as int,
                );
            }
        }

        if score > best_score {
            best_score = score;
            best_move = Some(mv);
        }
        if score > lower {
            lower = score;
        }
        i += 1;

        if lower >= beta {
            proof {
                pos@.lemma_best_reply_grows(all, i as int, depth - 1, ply + 1);
            }
            if is_root {
                stats.bestmove = best_move;
            }
            return best_score;
        }
    }
    proof {
        assert(all.take(i as int) =~= all);
    }

    if is_root {
        stats.bestmove = best_move;
    }
    best_score
}

/// The depth to which a search with `settings` goes at most.
pub fn max_depth(settings: &GoSettings) -> (depth: i32)
    ensures
        depth == match settings.depth {
            Some(d) => d,
            None => 128,
        },
{
    if let Some(depth) = settings.depth {
        depth
    } else {
        128
    }
}

/// Whether a search with `settings` stops after `millis` milliseconds, with
/// what `stats` says it has done: never where the depth is fixed; else by the
/// number of positions where that is limited; else by the time where that is.
pub fn should_stop(settings: &GoSettings, stats: &SearchStats, millis: u128) -> (stop: bool)
    ensures
        stop == match (settings.depth, settings.nodes, settings.movetime) {
            (Some(_), _, _) => false,
            (None, Some(nodes), _) => nodes >= stats.nodes,
            (None, None, Some(movetime)) => 0 <= movetime <= millis,
            (None, None, None) => false,
        },
{
    if let Some(_) = settings.depth {
        return false;
    }
    if let Some(nodes) = settings.nodes {
        return nodes >= stats.nodes;
    }
    if let Some(movetime) = settings.movetime {
        return movetime >= 0 && millis >= (movetime as u128);
    }
    false
}

} // verus!
