use crate::bitboard::{
    ascending, jumps, lemma_squares_of_empty, neighbours, Bitboard, Bitmasks,
};
use crate::mv::Mv;
use crate::position::{Board, Piece, Position};
use crate::square::Square;
use core::ops::Not;
use vstd::prelude::*;

verus! {

/// The shapes of move that name two cells.
#[derive(Clone, Copy, PartialEq, Eq, Debug, Structural)]
pub enum Pair {
    SoloMove,
    SoloStack,
    StackMove,
    StackDestack,
    StackStack,
}

/// The shapes of move that name three cells.
#[derive(Clone, Copy, PartialEq, Eq, Debug, Structural)]
pub enum Triple {
    SoloStackMove,
    StackMoveDestack,
    StackStackMove,
}

impl Pair {
    /// The move of this shape from `from` to `to`.
    pub open spec fn spec_mv(self, from: Square, to: Square) -> Mv {
        match self {
            Pair::SoloMove => Mv::SoloMove(from, to),
            Pair::SoloStack => Mv::SoloStack(from, to),
            Pair::StackMove => Mv::StackMove(from, to),
            Pair::StackDestack => Mv::StackDestack(from, to),
            Pair::StackStack => Mv::StackStack(from, to),
        }
    }

    /// The move of this shape from `from` to `to`.
    #[verifier::when_used_as_spec(spec_mv)]
    pub fn mv(self, from: Square, to: Square) -> (m: Mv)
        ensures
            m == self.spec_mv(from, to),
    {
        match self {
            Pair::SoloMove => Mv::SoloMove(from, to),
            Pair::SoloStack => Mv::SoloStack(from, to),
            Pair::StackMove => Mv::StackMove(from, to),
            Pair::StackDestack => Mv::StackDestack(from, to),
            Pair::StackStack => Mv::StackStack(from, to),
        }
    }
}

impl Triple {
    /// The move of this shape from `from` by way of `mid` to `to`.
    pub open spec fn spec_mv(self, from: Square, mid: Square, to: Square) -> Mv {
        match self {
            Triple::SoloStackMove => Mv::SoloStackMove(from, mid, to),
            Triple::StackMoveDestack => Mv::StackMoveDestack(from, mid, to),
            Triple::StackStackMove => Mv::StackStackMove(from, mid, to),
        }
    }

    /// The move of this shape from `from` by way of `mid` to `to`.
    #[verifier::when_used_as_spec(spec_mv)]
    pub fn mv(self, from: Square, mid: Square, to: Square) -> (m: Mv)
        ensures
            m == self.spec_mv(from, mid, to),
    {
        match self {
            Triple::SoloStackMove => Mv::SoloStackMove(from, mid, to),
            Triple::StackMoveDestack => Mv::StackMoveDestack(from, mid, to),
            Triple::StackStackMove => Mv::StackStackMove(from, mid, to),
        }
    }
}

/// The moves of shape `shape` from `from` to each cell of `targets`, in its order.
pub open spec fn pairs(shape: Pair, from: Square, targets: Seq<Square>) -> Seq<Mv> {
    Seq::new(targets.len(), |i: int| shape.spec_mv(from, targets[i]))
}

/// The moves of shape `shape` from `from` by way of `mid` to each cell of
/// `targets`, in its order.
pub open spec fn triples(shape: Triple, from: Square, mid: Square, targets: Seq<Square>) -> Seq<
    Mv,
> {
    Seq::new(targets.len(), |i: int| shape.spec_mv(from, mid, targets[i]))
}

/// The lists that `f` gives for the cells of `s`, one after the other.
pub open spec fn concat_map(s: Seq<Square>, f: spec_fn(Square) -> Seq<Mv>) -> Seq<Mv>
    decreases s.len(),
{
    if s.len() == 0 {
        Seq::empty()
    } else {
        concat_map(s.drop_last(), f) + f(s.last())
    }
}

/// Appends to `out` the moves of shape `shape` from `from` to each cell of `targets`.
fn push_pairs(out: &mut Vec<Mv>, shape: Pair, from: Square, targets: Bitboard)
    ensures
        final(out)@ == old(out)@ + pairs(shape, from, ascending(targets@)),
{
    let mut rest = targets;
    let ghost all = targets.spec_squares();
    let ghost mut done: int = 0;
    proof {
        assert(old(out)@ + pairs(shape, from, all.take(0)) =~= old(out)@);
    }
    while rest.0 != 0
        invariant
            0 <= done <= all.len(),
            all == ascending(targets@),
            rest.spec_squares() == all.skip(done),
            out@ == old(out)@ + pairs(shape, from, all.take(done)),
        decreases all.len() - done,
    {
        let ghost before = out@;
        let to = rest.next_square(Ghost(all), Ghost(done));
        out.push(shape.mv(from, to));
        proof {
            assert(all.take(done + 1) =~= all.take(done).push(to));
            assert(pairs(shape, from, all.take(done + 1)) =~= pairs(
                shape,
                from,
                all.take(done),
            ).push(shape.spec_mv(from, to)));
            done = done + 1;
        }
    }
    proof {
        lemma_squares_of_empty(rest);
        assert(all.take(done) =~= all);
    }
}

/// Appends to `out` the moves of shape `shape` from `from` by way of `mid` to
/// each cell of `targets`.
fn push_triples(out: &mut Vec<Mv>, shape: Triple, from: Square, mid: Square, targets: Bitboard)
    ensures
        final(out)@ == old(out)@ + triples(shape, from, mid, ascending(targets@)),
{
    let mut rest = targets;
    let ghost all = targets.spec_squares();
    let ghost mut done: int = 0;
    proof {
        assert(old(out)@ + triples(shape, from, mid, all.take(0)) =~= old(out)@);
    }
    while rest.0 != 0
        invariant
            0 <= done <= all.len(),
            all == ascending(targets@),
            rest.spec_squares() == all.skip(done),
            out@ == old(out)@ + triples(shape, from, mid, all.take(done)),
        decreases all.len() - done,
    {
        let ghost before = out@;
        let to = rest.next_square(Ghost(all), Ghost(done));
        out.push(shape.mv(from, mid, to));
        proof {
            assert(all.take(done + 1) =~= all.take(done).push(to));
            assert(triples(shape, from, mid, all.take(done + 1)) =~= triples(
                shape,
                from,
                mid,
                all.take(done),
            ).push(shape.spec_mv(from, mid, to)));
            done = done + 1;
        }
    }
    proof {
        lemma_squares_of_empty(rest);
        assert(all.take(done) =~= all);
    }
}

/// Listing one more cell adds what `f` gives for it.
pub proof fn lemma_concat_map_step(s: Seq<Square>, done: int, f: spec_fn(Square) -> Seq<Mv>)
    requires
        0 <= done < s.len(),
    ensures
        concat_map(s.take(done + 1), f) == concat_map(s.take(done), f) + f(s[done]),
{
    assert(s.take(done + 1).drop_last() =~= s.take(done));
}

/// The eight shapes of move, in the order in which they are generated.
#[derive(Clone, Copy, PartialEq, Eq, Debug, Structural)]
pub enum Shape {
    SoloMove,
    SoloStack,
    SoloStackMove,
    StackMove,
    StackMoveDestack,
    StackDestack,
    StackStack,
    StackStackMove,
}

/// The ways in which a move of three cells reaches its second cell.
#[derive(Clone, Copy, PartialEq, Eq, Debug, Structural)]
pub enum Via {
    /// A single piece joins a neighbour; the stack then moves on.
    SoloStackMove,
    /// A stack steps to a neighbouring cell; its top piece then moves on.
    StackMoveDestackNear,
    /// A stack jumps two cells; its top piece then moves on.
    StackMoveDestackFar,
    /// The top piece of a stack joins a neighbour; the new stack then moves on.
    StackStackMove,
}

/// What the generator reads of a position for the pieces of one kind.
#[derive(Clone, Copy, Debug)]
pub struct Group {
    /// Cells of the side to move.
    pub us: Bitboard,
    /// Cells of the other side.
    pub them: Bitboard,
    /// Cells with one piece.
    pub short: Bitboard,
    /// Cells with two pieces.
    pub tall: Bitboard,
    /// Cells of the side to move whose topmost piece is of the kind.
    pub piece_mask: Bitboard,
    /// Cells whose piece a piece of the kind may be put on.
    pub stackable: Bitboard,
    /// Cells whose topmost piece a piece of the kind captures.
    pub capturable: Bitboard,
}

/// The cell sets of a `Group`.
pub struct GroupView {
    pub us: Set<int>,
    pub them: Set<int>,
    pub short: Set<int>,
    pub tall: Set<int>,
    pub piece_mask: Set<int>,
    pub stackable: Set<int>,
    pub capturable: Set<int>,
}

impl View for Group {
    type V = GroupView;

    open spec fn view(&self) -> GroupView {
        GroupView {
            us: self.us@,
            them: self.them@,
            short: self.short@,
            tall: self.tall@,
            piece_mask: self.piece_mask@,
            stackable: self.stackable@,
            capturable: self.capturable@,
        }
    }
}

impl GroupView {
    /// Cells that either side occupies.
    pub open spec fn occupied(&self) -> Set<int> {
        self.us + self.them
    }

    /// Cells of the board that neither side occupies.
    pub open spec fn free(&self) -> Set<int> {
        Bitmasks::All.cells().difference(self.occupied())
    }

    /// Cells where a moving piece or stack may land: free, or held by a piece
    /// that it captures.
    pub open spec fn landing(&self) -> Set<int> {
        self.free() + self.capturable
    }

    /// Cells where a piece may be put on top of a single piece of its side.
    pub open spec fn joinable(&self) -> Set<int> {
        self.us.intersect(self.short).intersect(self.stackable)
    }

    /// Cells where a top piece that leaves its stack at `from` may end up: a
    /// landing cell, a cell where it may be put on top, or `from` itself where
    /// `back` says so.
    pub open spec fn destack(&self, from: Square, back: bool) -> Set<int> {
        self.free() + self.stackable + self.capturable + if back {
            set![from.0 as int]
        } else {
            Set::<int>::empty()
        }
    }

    /// Cells one step from `c`.
    pub open spec fn near(c: Square) -> Set<int> {
        neighbours(set![c.0 as int])
    }

    /// Cells two steps in one direction from `c`, past a cell that holds no
    /// piece but, at most, the one that set out from `from`.
    pub open spec fn far(&self, c: Square, from: Square) -> Set<int> {
        jumps(set![c.0 as int], self.occupied().difference(set![from.0 as int]))
    }

    /// Cells from which a move of shape `shape` sets out.
    pub open spec fn origins(&self, shape: Shape) -> Set<int> {
        match shape {
            Shape::SoloMove | Shape::SoloStack | Shape::SoloStackMove => self.piece_mask.intersect(
                self.short,
            ),
            _ => self.piece_mask.intersect(self.tall),
        }
    }

    /// Second cells of the moves of three cells from `from`.
    pub open spec fn mids(&self, via: Via, from: Square) -> Set<int> {
        match via {
            Via::SoloStackMove | Via::StackStackMove => Self::near(from).intersect(
                self.joinable(),
            ),
            Via::StackMoveDestackNear => Self::near(from).intersect(self.landing()),
            Via::StackMoveDestackFar => self.far(from, from).intersect(self.landing()),
        }
    }

    /// The moves of three cells from `from` by way of `mid`. A stack that moves
    /// on goes to the cells one step away, then to those two steps away.
    pub open spec fn last_moves(&self, via: Via, from: Square, mid: Square) -> Seq<Mv> {
        match via {
            Via::SoloStackMove => triples(
                Triple::SoloStackMove,
                from,
                mid,
                ascending(Self::near(mid).intersect(self.landing() + set![from.0 as int])),
            ) + triples(
                Triple::SoloStackMove,
                from,
                mid,
                ascending(self.far(mid, from).intersect(self.landing())),
            ),
            Via::StackMoveDestackNear => triples(
                Triple::StackMoveDestack,
                from,
                mid,
                ascending(Self::near(mid).intersect(self.destack(from, true))),
            ),
            Via::StackMoveDestackFar => triples(
                Triple::StackMoveDestack,
                from,
                mid,
                ascending(Self::near(mid).intersect(self.destack(from, false))),
            ),
            Via::StackStackMove => triples(
                Triple::StackStackMove,
                from,
                mid,
                ascending(Self::near(mid).intersect(self.landing())),
            ) + triples(
                Triple::StackStackMove,
                from,
                mid,
                ascending(self.far(mid, mid).intersect(self.landing())),
            ),
        }
    }

    /// For each second cell, the moves of three cells from `from` by way of it.
    pub open spec fn last_fn(&self, via: Via, from: Square) -> spec_fn(Square) -> Seq<Mv> {
        |mid: Square| self.last_moves(via, from, mid)
    }

    /// The moves of three cells from `from`, second cells in ascending order.
    pub open spec fn via_moves(&self, via: Via, from: Square) -> Seq<Mv> {
        concat_map(ascending(self.mids(via, from)), self.last_fn(via, from))
    }

    /// The moves of shape `shape` from `from`, target cells in ascending order.
    pub open spec fn moves_from(&self, shape: Shape, from: Square) -> Seq<Mv> {
        match shape {
            Shape::SoloMove => pairs(
                Pair::SoloMove,
                from,
                ascending(Self::near(from).intersect(self.landing())),
            ),
            Shape::SoloStack => pairs(
                Pair::SoloStack,
                from,
                ascending(Self::near(from).intersect(self.joinable())),
            ),
            Shape::SoloStackMove => self.via_moves(Via::SoloStackMove, from),
            Shape::StackMove => pairs(
                Pair::StackMove,
                from,
                ascending(Self::near(from).intersect(self.landing())),
            ) + pairs(
                Pair::StackMove,
                from,
                ascending(self.far(from, from).intersect(self.landing())),
            ),
            Shape::StackMoveDestack => self.via_moves(Via::StackMoveDestackNear, from)
                + self.via_moves(Via::StackMoveDestackFar, from),
            Shape::StackDestack => pairs(
                Pair::StackDestack,
                from,
                ascending(Self::near(from).intersect(self.landing())),
            ),
            Shape::StackStack => pairs(
                Pair::StackStack,
                from,
                ascending(Self::near(from).intersect(self.joinable())),
            ),
            Shape::StackStackMove => self.via_moves(Via::StackStackMove, from),
        }
    }

    /// For each origin, the moves of shape `shape` from it.
    pub open spec fn from_fn(&self, shape: Shape) -> spec_fn(Square) -> Seq<Mv> {
        |from: Square| self.moves_from(shape, from)
    }

    /// The moves of shape `shape`, origins in ascending order.
    pub open spec fn shape_moves(&self, shape: Shape) -> Seq<Mv> {
        concat_map(ascending(self.origins(shape)), self.from_fn(shape))
    }

    /// The moves of the group, shape by shape.
    pub open spec fn moves(&self) -> Seq<Mv> {
        self.shape_moves(Shape::SoloMove) + self.shape_moves(Shape::SoloStack) + self.shape_moves(
            Shape::SoloStackMove,
        ) + self.shape_moves(Shape::StackMove) + self.shape_moves(Shape::StackMoveDestack)
            + self.shape_moves(Shape::StackDestack) + self.shape_moves(Shape::StackStack)
            + self.shape_moves(Shape::StackStackMove)
    }
}

impl Group {
    /// Every set lies on the board.
    pub open spec fn wf(&self) -> bool {
        &&& self.us.wf()
        &&& self.them.wf()
        &&& self.short.wf()
        &&& self.tall.wf()
        &&& self.piece_mask.wf()
        &&& self.stackable.wf()
        &&& self.capturable.wf()
    }

    /// Cells one step from `c`.
    pub(crate) fn near_board(c: Square) -> (bb: Bitboard)
        requires
            c.wf(),
        ensures
            bb.wf(),
            bb@ == GroupView::near(c),
    {
        Bitboard::from_square(&c).adjacent()
    }

    /// Cells two steps in one direction from `c`, past a cell that holds no
    /// piece but, at most, the one that set out from `from`.
    pub(crate) fn far_board(&self, c: Square, from: Square) -> (bb: Bitboard)
        requires
            self.wf(),
            c.wf(),
            from.wf(),
        ensures
            bb.wf(),
            bb@ == self@.far(c, from),
    {
        let blockers = (self.us | self.them) & Bitboard::from_square(&from).not();
        proof {
            assert(blockers@ =~= self@.occupied().difference(set![from.0 as int]));
        }
        Bitboard::from_square(&c).doubles(blockers)
    }

    /// Cells where a moving piece or stack may land.
    pub(crate) fn landing_board(&self) -> (bb: Bitboard)
        requires
            self.wf(),
        ensures
            bb.wf(),
            bb@ == self@.landing(),
    {
        (self.us | self.them).not() | self.capturable
    }

    /// Cells where a piece may be put on top of a single piece of its side.
    pub(crate) fn joinable_board(&self) -> (bb: Bitboard)
        requires
            self.wf(),
        ensures
            bb.wf(),
            bb@ == self@.joinable(),
    {
        self.us & self.short & self.stackable
    }

    /// Appends the moves of three cells from `from` by way of `mid`.
    fn emit_last(&self, out: &mut Vec<Mv>, via: Via, from: Square, mid: Square)
        requires
            self.wf(),
            from.wf(),
            mid.wf(),
        ensures
            final(out)@ == old(out)@ + self@.last_moves(via, from, mid),
    {
        let near = Self::near_board(mid);
        match via {
            Via::SoloStackMove => {
                let dist1 = near & (self.landing_board() | Bitboard::from_square(&from));
                let dist2 = self.far_board(mid, from) & self.landing_board();
                push_triples(out, Triple::SoloStackMove, from, mid, dist1);
                push_triples(out, Triple::SoloStackMove, from, mid, dist2);
            },
            Via::StackMoveDestackNear => {
                let empty = (self.us | self.them).not();
                let targets = near & (empty | self.stackable | self.capturable
                    | Bitboard::from_square(&from));
                proof {
                    assert(targets@ =~= GroupView::near(mid).intersect(self@.destack(from, true)));
                }
                push_triples(out, Triple::StackMoveDestack, from, mid, targets);
            },
            Via::StackMoveDestackFar => {
                let empty = (self.us | self.them).not();
                let targets = near & (empty | self.stackable | self.capturable);
                proof {
                    assert(targets@ =~= GroupView::near(mid).intersect(self@.destack(from, false)));
                }
                push_triples(out, Triple::StackMoveDestack, from, mid, targets);
            },
            Via::StackStackMove => {
                let dist1 = near & self.landing_board();
                let dist2 = self.far_board(mid, mid) & self.landing_board();
                push_triples(out, Triple::StackStackMove, from, mid, dist1);
                push_triples(out, Triple::StackStackMove, from, mid, dist2);
            },
        }
        proof {
            assert(out@ =~= old(out)@ + self@.last_moves(via, from, mid));
        }
    }

    /// Appends the moves of three cells from `from`.
    fn emit_via(&self, out: &mut Vec<Mv>, via: Via, from: Square)
        requires
            self.wf(),
            from.wf(),
        ensures
            final(out)@ == old(out)@ + self@.via_moves(via, from),
    {
        let mids = match via {
            Via::SoloStackMove | Via::StackStackMove => Self::near_board(from)
                & self.joinable_board(),
            Via::StackMoveDestackNear => Self::near_board(from) & self.landing_board(),
            Via::StackMoveDestackFar => self.far_board(from, from) & self.landing_board(),
        };
        let mut rest = mids;
        let ghost all = mids.spec_squares();
        let ghost f = self@.last_fn(via, from);
        let ghost mut done: int = 0;
        proof {
            assert(old(out)@ + concat_map(all.take(0), f) =~= old(out)@);
        }
        while rest.0 != 0
            invariant
                self.wf(),
                from.wf(),
                rest.wf(),
                0 <= done <= all.len(),
                all == ascending(self@.mids(via, from)),
                f == self@.last_fn(via, from),
                rest.spec_squares() == all.skip(done),
                out@ == old(out)@ + concat_map(all.take(done), f),
            decreases all.len() - done,
        {
            let mid = rest.next_square(Ghost(all), Ghost(done));
            self.emit_last(out, via, from, mid);
            proof {
                lemma_concat_map_step(all, done, f);
                assert(out@ =~= old(out)@ + concat_map(all.take(done + 1), f));
                done = done + 1;
            }
        }
        proof {
            lemma_squares_of_empty(rest);
            assert(all.take(done) =~= all);
        }
    }

    /// Appends the moves of shape `shape` from `from`.
    fn emit_from(&self, out: &mut Vec<Mv>, shape: Shape, from: Square)
        requires
            self.wf(),
            from.wf(),
        ensures
            final(out)@ == old(out)@ + self@.moves_from(shape, from),
    {
        match shape {
            Shape::SoloMove => {
                let targets = Self::near_board(from) & self.landing_board();
                push_pairs(out, Pair::SoloMove, from, targets);
            },
            Shape::SoloStack => {
                let targets = Self::near_board(from) & self.joinable_board();
                push_pairs(out, Pair::SoloStack, from, targets);
            },
            Shape::SoloStackMove => {
                self.emit_via(out, Via::SoloStackMove, from);
            },
            Shape::StackMove => {
                let dist1 = Self::near_board(from) & self.landing_board();
                let dist2 = self.far_board(from, from) & self.landing_board();
                push_pairs(out, Pair::StackMove, from, dist1);
                push_pairs(out, Pair::StackMove, from, dist2);
            },
            Shape::StackMoveDestack => {
                self.emit_via(out, Via::StackMoveDestackNear, from);
                self.emit_via(out, Via::StackMoveDestackFar, from);
            },
            Shape::StackDestack => {
                let targets = Self::near_board(from) & self.landing_board();
                push_pairs(out, Pair::StackDestack, from, targets);
            },
            Shape::StackStack => {
                let targets = Self::near_board(from) & self.joinable_board();
                push_pairs(out, Pair::StackStack, from, targets);
            },
            Shape::StackStackMove => {
                self.emit_via(out, Via::StackStackMove, from);
            },
        }
        proof {
            assert(out@ =~= old(out)@ + self@.moves_from(shape, from));
        }
    }

    /// Appends the moves of shape `shape`.
    fn emit_shape(&self, out: &mut Vec<Mv>, shape: Shape)
        requires
            self.wf(),
        ensures
            final(out)@ == old(out)@ + self@.shape_moves(shape),
    {
        let origins = match shape {
            Shape::SoloMove | Shape::SoloStack | Shape::SoloStackMove => self.piece_mask
                & self.short,
            _ => self.piece_mask & self.tall,
        };
        let mut rest = origins;
        let ghost all = origins.spec_squares();
        let ghost f = self@.from_fn(shape);
        let ghost mut done: int = 0;
        proof {
            assert(old(out)@ + concat_map(all.take(0), f) =~= old(out)@);
        }
        while rest.0 != 0
            invariant
                self.wf(),
                rest.wf(),
                0 <= done <= all.len(),
                all == ascending(self@.origins(shape)),
                f == self@.from_fn(shape),
                rest.spec_squares() == all.skip(done),
                out@ == old(out)@ + concat_map(all.take(done), f),
            decreases all.len() - done,
        {
            let from = rest.next_square(Ghost(all), Ghost(done));
            self.emit_from(out, shape, from);
            proof {
                lemma_concat_map_step(all, done, f);
                assert(out@ =~= old(out)@ + concat_map(all.take(done + 1), f));
                done = done + 1;
            }
        }
        proof {
            lemma_squares_of_empty(rest);
            assert(all.take(done) =~= all);
        }
    }
}

/// Appends to `moves` the moves of the pieces in `piece_mask`, shape by shape.
pub fn get_moves(
    us: Bitboard,
    them: Bitboard,
    short: Bitboard,
    tall: Bitboard,
    piece_mask: Bitboard,
    stackable: Bitboard,
    capturable: Bitboard,
    moves: &mut Vec<Mv>,
)
    requires
        (Group { us, them, short, tall, piece_mask, stackable, capturable }).wf(),
    ensures
        final(moves)@ == old(moves)@ + (Group {
            us,
            them,
            short,
            tall,
            piece_mask,
            stackable,
            capturable,
        })@.moves(),
{
    let group = Group { us, them, short, tall, piece_mask, stackable, capturable };

    group.emit_shape(moves, Shape::SoloMove);
    group.emit_shape(moves, Shape::SoloStack);
    group.emit_shape(moves, Shape::SoloStackMove);
    group.emit_shape(moves, Shape::StackMove);
    group.emit_shape(moves, Shape::StackMoveDestack);
    group.emit_shape(moves, Shape::StackDestack);
    group.emit_shape(moves, Shape::StackStack);
    group.emit_shape(moves, Shape::StackStackMove);
    proof {
        assert(moves@ =~= old(moves)@ + group@.moves());
    }
}

impl Board {
    /// What the generator reads of the board for the pieces of kind `kind`: the
    /// cells of the side to move whose topmost piece is of that kind; the single
    /// pieces of that side that a piece of that kind may be put on, which for a
    /// wise piece are the wise ones; and the cells of the other side whose
    /// topmost piece is of the kind that `kind` captures.
    pub open spec fn group(self, kind: Piece) -> GroupView {
        let us = self.side_cells(self.turn);
        let them = self.side_cells(self.turn.other());
        GroupView {
            us,
            them,
            short: self.single_cells(),
            tall: self.stack_cells(),
            piece_mask: self.top_cells(kind).intersect(us),
            stackable: if kind == Piece::Wise {
                us.intersect(self.single_cells()).intersect(self.kind_cells(Piece::Wise))
            } else {
                us.intersect(self.single_cells())
            },
            capturable: match kind.spec_prey() {
                Some(prey) => self.top_cells(prey).intersect(them),
                None => Set::<int>::empty(),
            },
        }
    }

    /// The legal moves in the order in which they are generated: the moves of
    /// the rocks, of the papers, of the scissors, of the wise pieces; for each
    /// kind shape by shape; for each shape by ascending cell of origin, and from
    /// one origin by ascending second and third cell.
    pub open spec fn legal_moves(self) -> Seq<Mv> {
        self.group(Piece::Rock).moves() + self.group(Piece::Paper).moves() + self.group(
            Piece::Scissors,
        ).moves() + self.group(Piece::Wise).moves()
    }
}

impl Position {
    /// Calls `func` with each legal move in turn, in the order of generation,
    /// until it answers `true`. Returns whether it did.
    #[verifier::spinoff_prover]
    #[verifier::rlimit(40)]
    pub fn move_generator(&self, func: impl FnMut(Mv) -> bool) -> (stopped: bool)
        requires
            self.wf(),
            forall|i: int|
                0 <= i < self@.legal_moves().len() ==> call_requires(
                    func,
                    (#[trigger] self@.legal_moves()[i],),
                ),
        ensures
            stopped ==> exists|n: int|
                0 <= n < self@.legal_moves().len() && call_ensures(
                    func,
                    (#[trigger] self@.legal_moves()[n],),
                    true,
                ) && forall|j: int|
                    0 <= j < n ==> call_ensures(func, (#[trigger] self@.legal_moves()[j],), false),
            !stopped ==> forall|j: int|
                0 <= j < self@.legal_moves().len() ==> call_ensures(
                    func,
                    (#[trigger] self@.legal_moves()[j],),
                    false,
                ),
    {
        broadcast use vstd::function::group_function_axioms;

        let moves = self.legal_moves();
        let mut f = func;
        let mut i: usize = 0;
        while i < moves.len()
            invariant
                0 <= i <= moves.len(),
                moves@ == self@.legal_moves(),
                f == func,
                forall|j: int|
                    0 <= j < moves@.len() ==> call_requires(func, (#[trigger] moves@[j],)),
                forall|j: int| 0 <= j < i ==> call_ensures(func, (#[trigger] moves@[j],), false),
            decreases moves.len() - i,
        {
            let stop = f(moves[i]);
            if stop {
                assert(call_ensures(func, (self@.legal_moves()[i as int],), true));
                return true;
            }
            i += 1;
        }
        false
    }
}

} // verus!
