use crate::bitboard::{
    ascending, lemma_ascending, lemma_squares_of_empty, Bitboard,
};
use crate::legality::lemma_reach_on_board;
use crate::move_generator::{
    concat_map, lemma_concat_map_step, Group, GroupView, Shape, Via,
};
use crate::mv::Mv;
use crate::position::{Board, Piece, Position};
use crate::square::Square;
use core::ops::Not;
use vstd::prelude::*;

verus! {

/// A list put together from lists of at most `bound` moves, one for each cell,
/// has at most `bound` moves for each cell.
pub proof fn lemma_concat_map_len(s: Seq<Square>, f: spec_fn(Square) -> Seq<Mv>, bound: int)
    requires
        forall|i: int| 0 <= i < s.len() ==> (#[trigger] f(s[i])).len() <= bound,
    ensures
        concat_map(s, f).len() <= s.len() * bound,
    decreases s.len(),
{
    if s.len() > 0 {
        let init = s.drop_last();
        assert forall|i: int| 0 <= i < init.len() implies (#[trigger] f(init[i])).len()
            <= bound by {
            assert(init[i] == s[i]);
        }
        lemma_concat_map_len(init, f, bound);
        assert(f(s.last()) == f(s[s.len() - 1]));
        assert((s.len() - 1) * bound + bound == s.len() * bound) by (nonlinear_arith);
    }
}

impl GroupView {
    /// The pieces of the group stand on the board.
    pub open spec fn on_board(self) -> bool {
        self.piece_mask.subset_of(crate::bitboard::Bitmasks::All.cells())
    }

    /// No list of the generator is longer than the board allows.
    pub proof fn lemma_len_bounds(self)
        ensures
            forall|via: Via, from: Square, mid: Square| #[trigger]
                self.last_moves(via, from, mid).len() <= 90,
            forall|via: Via, from: Square| #[trigger] self.via_moves(via, from).len() <= 4050,
            forall|shape: Shape, from: Square| #[trigger]
                self.moves_from(shape, from).len() <= 8100,
            self.on_board() ==> forall|shape: Shape| #[trigger]
                self.shape_moves(shape).len() <= 364500,
            self.on_board() ==> self.moves().len() <= 2916000,
    {
        assert forall|via: Via, from: Square, mid: Square| #[trigger]
            self.last_moves(via, from, mid).len() <= 90 by {
            self.lemma_last_len(via, from, mid);
        }
        assert forall|via: Via, from: Square| #[trigger]
            self.via_moves(via, from).len() <= 4050 by {
            self.lemma_via_len(via, from);
        }
        assert forall|shape: Shape, from: Square| #[trigger]
            self.moves_from(shape, from).len() <= 8100 by {
            self.lemma_from_len(shape, from);
        }
        if self.on_board() {
            assert forall|shape: Shape| #[trigger] self.shape_moves(shape).len() <= 364500 by {
                let origins = ascending(self.origins(shape));
                lemma_ascending(self.origins(shape));
                assert forall|i: int| 0 <= i < origins.len() implies (#[trigger] self.from_fn(
                    shape,
                )(origins[i])).len() <= 8100 by {
                    self.lemma_from_len(shape, origins[i]);
                }
                lemma_concat_map_len(origins, self.from_fn(shape), 8100);
            }
        }
    }

    proof fn lemma_last_len(self, via: Via, from: Square, mid: Square)
        ensures
            self.last_moves(via, from, mid).len() <= 90,
    {
        lemma_reach_on_board(set![mid.0 as int], self.occupied().difference(set![from.0 as int]));
        lemma_reach_on_board(set![mid.0 as int], self.occupied().difference(set![mid.0 as int]));
        lemma_ascending(Self::near(mid).intersect(self.landing() + set![from.0 as int]));
        lemma_ascending(self.far(mid, from).intersect(self.landing()));
        lemma_ascending(Self::near(mid).intersect(self.destack(from, true)));
        lemma_ascending(Self::near(mid).intersect(self.destack(from, false)));
        lemma_ascending(Self::near(mid).intersect(self.landing()));
        lemma_ascending(self.far(mid, mid).intersect(self.landing()));
    }

    proof fn lemma_via_len(self, via: Via, from: Square)
        ensures
            self.via_moves(via, from).len() <= 4050,
    {
        let mids = ascending(self.mids(via, from));
        lemma_reach_on_board(set![from.0 as int], self.occupied().difference(set![from.0 as int]));
        lemma_ascending(self.mids(via, from));
        assert forall|i: int| 0 <= i < mids.len() implies (#[trigger] self.last_fn(via, from)(
            mids[i],
        )).len() <= 90 by {
            self.lemma_last_len(via, from, mids[i]);
        }
        lemma_concat_map_len(mids, self.last_fn(via, from), 90);
    }

    proof fn lemma_from_len(self, shape: Shape, from: Square)
        ensures
            self.moves_from(shape, from).len() <= 8100,
    {
        lemma_reach_on_board(set![from.0 as int], self.occupied().difference(set![from.0 as int]));
        lemma_ascending(Self::near(from).intersect(self.landing()));
        lemma_ascending(Self::near(from).intersect(self.joinable()));
        lemma_ascending(self.far(from, from).intersect(self.landing()));
        self.lemma_via_len(Via::SoloStackMove, from);
        self.lemma_via_len(Via::StackMoveDestackNear, from);
        self.lemma_via_len(Via::StackMoveDestackFar, from);
        self.lemma_via_len(Via::StackStackMove, from);
    }
}

impl Board {
    /// A position has fewer legal moves than an `i32` can count.
    pub proof fn lemma_legal_moves_len(self)
        ensures
            self.legal_moves().len() <= 11664000,
    {
        self.group(Piece::Rock).lemma_len_bounds();
        self.group(Piece::Paper).lemma_len_bounds();
        self.group(Piece::Scissors).lemma_len_bounds();
        self.group(Piece::Wise).lemma_len_bounds();
    }
}

impl Group {
    /// Number of moves of three cells from `from` by way of `mid`.
    fn count_last(&self, via: Via, from: Square, mid: Square) -> (n: i32)
        requires
            self.wf(),
            from.wf(),
            mid.wf(),
        ensures
            n == self@.last_moves(via, from, mid).len(),
            0 <= n <= 90,
    {
        proof {
            self@.lemma_len_bounds();
        }
        let near = Self::near_board(mid);
        match via {
            Via::SoloStackMove => {
                let dist1 = near & (self.landing_board() | Bitboard::from_square(&from));
                let dist2 = self.far_board(mid, from) & self.landing_board();
                dist1.count() + dist2.count()
            },
            Via::StackMoveDestackNear => {
                let empty = (self.us | self.them).not();
                let targets = near & (empty | self.stackable | self.capturable
                    | Bitboard::from_square(&from));
                proof {
                    assert(targets@ =~= GroupView::near(mid).intersect(self@.destack(from, true)));
                }
                targets.count()
            },
            Via::StackMoveDestackFar => {
                let empty = (self.us | self.them).not();
                let targets = near & (empty | self.stackable | self.capturable);
                proof {
                    assert(targets@ =~= GroupView::near(mid).intersect(self@.destack(from, false)));
                }
                targets.count()
            },
            Via::StackStackMove => {
                let dist1 = near & self.landing_board();
                let dist2 = self.far_board(mid, mid) & self.landing_board();
                dist1.count() + dist2.count()
            },
        }
    }

    /// Number of moves of three cells from `from`.
    fn count_via(&self, via: Via, from: Square) -> (n: i32)
        requires
            self.wf(),
            from.wf(),
        ensures
            n == self@.via_moves(via, from).len(),
            0 <= n <= 4050,
    {
        let mids = match via {
            Via::SoloStackMove | Via::StackStackMove => Self::near_board(from)
                & self.joinable_board(),
            Via::StackMoveDestackNear => Self::near_board(from) & self.landing_board(),
            Via::StackMoveDestackFar => self.far_board(from, from) & self.landing_board(),
        };
        let mut rest = mids;
        let mut nodes: i32 = 0;
        let ghost all = mids.spec_squares();
        let ghost f = self@.last_fn(via, from);
        let ghost mut done: int = 0;
        proof {
            crate::bitboard::lemma_ascending(mids@);
            self@.lemma_len_bounds();
        }
        while rest.0 != 0
            invariant
                self.wf(),
                from.wf(),
                rest.wf(),
                0 <= done <= all.len(),
                all == ascending(self@.mids(via, from)),
                f == self@.last_fn(via, from),
                rest.spec_squares() == all.skip(done),
                nodes == concat_map(all.take(done), f).len(),
                0 <= nodes <= 90 * done,
                self@.via_moves(via, from).len() <= 4050,
                done < all.len() ==> 90 * (done + 1) <= 90 * 45,
                all.len() <= 45,
            decreases all.len() - done,
        {
            let mid = rest.next_square(Ghost(all), Ghost(done));
            nodes += self.count_last(via, from, mid);
            proof {
                lemma_concat_map_step(all, done, f);
                done = done + 1;
            }
        }
        proof {
            lemma_squares_of_empty(rest);
            assert(all.take(done) =~= all);
        }
        nodes
    }

    /// Number of moves of shape `shape` from `from`.
    fn count_from(&self, shape: Shape, from: Square) -> (n: i32)
        requires
            self.wf(),
            from.wf(),
        ensures
            n == self@.moves_from(shape, from).len(),
            0 <= n <= 8100,
    {
        proof {
            self@.lemma_len_bounds();
        }
        match shape {
            Shape::SoloMove | Shape::StackDestack => {
                let targets = Self::near_board(from) & self.landing_board();
                targets.count()
            },
            Shape::SoloStack | Shape::StackStack => {
                let targets = Self::near_board(from) & self.joinable_board();
                targets.count()
            },
            Shape::SoloStackMove => self.count_via(Via::SoloStackMove, from),
            Shape::StackMove => {
                let dist1 = Self::near_board(from) & self.landing_board();
                let dist2 = self.far_board(from, from) & self.landing_board();
                dist1.count() + dist2.count()
            },
            Shape::StackMoveDestack => self.count_via(Via::StackMoveDestackNear, from)
                + self.count_via(Via::StackMoveDestackFar, from),
            Shape::StackStackMove => self.count_via(Via::StackStackMove, from),
        }
    }

    /// Number of moves of shape `shape`.
    fn count_shape(&self, shape: Shape) -> (n: i32)
        requires
            self.wf(),
        ensures
            n == self@.shape_moves(shape).len(),
            0 <= n <= 364500,
    {
        let origins = match shape {
            Shape::SoloMove | Shape::SoloStack | Shape::SoloStackMove => self.piece_mask
                & self.short,
            _ => self.piece_mask & self.tall,
        };
        let mut rest = origins;
        let mut nodes: i32 = 0;
        let ghost all = origins.spec_squares();
        let ghost f = self@.from_fn(shape);
        let ghost mut done: int = 0;
        proof {
            crate::bitboard::lemma_ascending(origins@);
        }
        while rest.0 != 0
            invariant
                self.wf(),
                rest.wf(),
                0 <= done <= all.len(),
                all == ascending(self@.origins(shape)),
                f == self@.from_fn(shape),
                rest.spec_squares() == all.skip(done),
                nodes == concat_map(all.take(done), f).len(),
                0 <= nodes <= 8100 * done,
                all.len() <= 45,
            decreases all.len() - done,
        {
            let from = rest.next_square(Ghost(all), Ghost(done));
            nodes += self.count_from(shape, from);
            proof {
                lemma_concat_map_step(all, done, f);
                done = done + 1;
            }
        }
        proof {
            lemma_squares_of_empty(rest);
            assert(all.take(done) =~= all);
        }
        nodes
    }
}

/// Number of moves of the pieces in `piece_mask`, counted without listing them.
#[must_use]
pub fn get_moves(
    us: Bitboard,
    them: Bitboard,
    short: Bitboard,
    tall: Bitboard,
    piece_mask: Bitboard,
    stackable: Bitboard,
    capturable: Bitboard,
) -> (nodes: i32)
    requires
        (Group { us, them, short, tall, piece_mask, stackable, capturable }).wf(),
    ensures
        nodes == (Group {
            us,
            them,
            short,
            tall,
            piece_mask,
            stackable,
            capturable,
        })@.moves().len(),
        0 <= nodes <= 2916000,
{
    let group = Group { us, them, short, tall, piece_mask, stackable, capturable };
    let mut nodes: i32 = 0;

    nodes += group.count_shape(Shape::SoloMove);
    nodes += group.count_shape(Shape::SoloStack);
    nodes += group.count_shape(Shape::SoloStackMove);
    nodes += group.count_shape(Shape::StackMove);
    nodes += group.count_shape(Shape::StackMoveDestack);
    nodes += group.count_shape(Shape::StackDestack);
    nodes += group.count_shape(Shape::StackStack);
    nodes += group.count_shape(Shape::StackStackMove);

    nodes
}

impl Position {
    /// Number of legal moves, counted by listing them.
    #[must_use]
    pub fn count_moves(&self) -> (count: i32)
        requires
            self.wf(),
        ensures
            count == self@.legal_moves().len(),
    {
        proof {
            self@.lemma_legal_moves_len();
        }
        let moves = self.legal_moves();
        moves.len() as i32
    }

    /// Number of legal moves, counted from the sizes of the target sets without
    /// listing a move.
    #[must_use]
    pub fn count_moves_sneaky(&self) -> (nodes: i32)
        requires
            self.wf(),
        ensures
            nodes == self@.legal_moves().len(),
    {
        let mut nodes: i32 = 0;

        // Rock > Scissors
        nodes += get_moves(
            self.get_us(),
            self.get_them(),
            self.get_short(),
            self.get_tall(),
            self.get_visible(Piece::Rock) & self.get_us(),
            self.get_us() & self.get_short(),
            self.get_visible(Piece::Scissors) & self.get_them(),
        );

        // Paper > Rock
        nodes += get_moves(
            self.get_us(),
            self.get_them(),
            self.get_short(),
            self.get_tall(),
            self.get_visible(Piece::Paper) & self.get_us(),
            self.get_us() & self.get_short(),
            self.get_visible(Piece::Rock) & self.get_them(),
        );

        // Scissors > Paper
        nodes += get_moves(
            self.get_us(),
            self.get_them(),
            self.get_short(),
            self.get_tall(),
            self.get_visible(Piece::Scissors) & self.get_us(),
            self.get_us() & self.get_short(),
            self.get_visible(Piece::Paper) & self.get_them(),
        );

        // Wise > None
        nodes += get_moves(
            self.get_us(),
            self.get_them(),
            self.get_short(),
            self.get_tall(),
            self.get_visible(Piece::Wise) & self.get_us(),
            self.get_us() & self.get_short() & self.get_wise(),
            Bitboard::empty(),
        );

        nodes
    }
}

} // verus!
