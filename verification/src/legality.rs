use crate::bitboard::{
    ascending, jumped, jumps, lemma_ascending, lemma_ascending_has, lemma_shifted_on_board,
    neighbours, shifted, Bitmasks,
};
use crate::move_generator::{concat_map, pairs, triples, GroupView, Pair, Shape, Triple, Via};
use crate::mv::Mv;
use crate::position::{Board, Cell, Piece};
use crate::square::{
    is_adjacent, is_jump, lemma_step_back, lemma_step_on_board, step, Direction, Square,
};
use vstd::prelude::*;

verus! {

/// What two lists hold together, one of them holds.
pub proof fn lemma_concat_contains(a: Seq<Mv>, b: Seq<Mv>, mv: Mv)
    requires
        (a + b).contains(mv),
    ensures
        a.contains(mv) || b.contains(mv),
{
    let i = choose|i: int| 0 <= i < (a + b).len() && (a + b)[i] == mv;
    if i < a.len() {
        assert(a[i] == mv);
    } else {
        assert(b[i - a.len()] == mv);
    }
}

/// A move of a list put together from one list for each cell is in the list of
/// one of the cells.
pub proof fn lemma_concat_map_member(s: Seq<Square>, f: spec_fn(Square) -> Seq<Mv>, mv: Mv) -> (i:
    int)
    requires
        concat_map(s, f).contains(mv),
    ensures
        0 <= i < s.len(),
        f(s[i]).contains(mv),
    decreases s.len(),
{
    if s.len() == 0 {
        assert(concat_map(s, f).len() == 0);
        0
    } else {
        lemma_concat_contains(concat_map(s.drop_last(), f), f(s.last()), mv);
        if f(s.last()).contains(mv) {
            s.len() - 1
        } else {
            lemma_concat_map_member(s.drop_last(), f, mv)
        }
    }
}

/// A cell one step from `c` is another cell of the board.
pub proof fn lemma_near(c: Square, j: int)
    requires
        GroupView::near(c).contains(j),
    ensures
        0 <= j < 45,
        j != c.0,
{
    lemma_step_on_board(j, Direction::Left);
    lemma_step_on_board(j, Direction::Right);
    lemma_step_on_board(j, Direction::UpLeft);
    lemma_step_on_board(j, Direction::UpRight);
    lemma_step_on_board(j, Direction::DownLeft);
    lemma_step_on_board(j, Direction::DownRight);
}

/// The cells one step and two steps away lie on the board.
pub proof fn lemma_reach_on_board(s: Set<int>, blockers: Set<int>)
    ensures
        neighbours(s).subset_of(Bitmasks::All.cells()),
        jumps(s, blockers).subset_of(Bitmasks::All.cells()),
{
    lemma_shifted_on_board(s, Direction::Left);
    lemma_shifted_on_board(s, Direction::Right);
    lemma_shifted_on_board(s, Direction::UpLeft);
    lemma_shifted_on_board(s, Direction::UpRight);
    lemma_shifted_on_board(s, Direction::DownLeft);
    lemma_shifted_on_board(s, Direction::DownRight);
    lemma_shifted_on_board(shifted(s, Direction::Left).difference(blockers), Direction::Left);
    lemma_shifted_on_board(shifted(s, Direction::Right).difference(blockers), Direction::Right);
    lemma_shifted_on_board(shifted(s, Direction::UpLeft).difference(blockers), Direction::UpLeft);
    lemma_shifted_on_board(
        shifted(s, Direction::UpRight).difference(blockers),
        Direction::UpRight,
    );
    lemma_shifted_on_board(
        shifted(s, Direction::DownLeft).difference(blockers),
        Direction::DownLeft,
    );
    lemma_shifted_on_board(
        shifted(s, Direction::DownRight).difference(blockers),
        Direction::DownRight,
    );
}

/// A move of the list from `from` to the cells of `targets` ends on one of them.
pub proof fn lemma_pairs_member(shape: Pair, from: Square, targets: Set<int>, mv: Mv) -> (to:
    Square)
    requires
        targets.subset_of(Bitmasks::All.cells()),
        pairs(shape, from, ascending(targets)).contains(mv),
    ensures
        mv == shape.spec_mv(from, to),
        to.wf(),
        targets.contains(to.0 as int),
{
    lemma_ascending(targets);
    let list = pairs(shape, from, ascending(targets));
    let j = choose|j: int| 0 <= j < list.len() && list[j] == mv;
    ascending(targets)[j]
}

/// A move of the list from `from` by way of `mid` to the cells of `targets` ends
/// on one of them.
pub proof fn lemma_triples_member(
    shape: Triple,
    from: Square,
    mid: Square,
    targets: Set<int>,
    mv: Mv,
) -> (to: Square)
    requires
        targets.subset_of(Bitmasks::All.cells()),
        triples(shape, from, mid, ascending(targets)).contains(mv),
    ensures
        mv == shape.spec_mv(from, mid, to),
        to.wf(),
        targets.contains(to.0 as int),
{
    lemma_ascending(targets);
    let list = triples(shape, from, mid, ascending(targets));
    let j = choose|j: int| 0 <= j < list.len() && list[j] == mv;
    ascending(targets)[j]
}

/// The cells one step from `c` are its neighbours.
pub proof fn lemma_near_adjacent(c: Square, j: int)
    ensures
        GroupView::near(c).contains(j) <==> is_adjacent(c.0 as int, j),
{
    let a = c.0 as int;
    lemma_step_back(a, j, Direction::Left);
    lemma_step_back(a, j, Direction::Right);
    lemma_step_back(a, j, Direction::UpLeft);
    lemma_step_back(a, j, Direction::UpRight);
    lemma_step_back(a, j, Direction::DownLeft);
    lemma_step_back(a, j, Direction::DownRight);
    if GroupView::near(c).contains(j) {
        let dir = if shifted(set![a], Direction::Left).contains(j) {
            Direction::Left
        } else if shifted(set![a], Direction::Right).contains(j) {
            Direction::Right
        } else if shifted(set![a], Direction::UpLeft).contains(j) {
            Direction::UpLeft
        } else if shifted(set![a], Direction::UpRight).contains(j) {
            Direction::UpRight
        } else if shifted(set![a], Direction::DownLeft).contains(j) {
            Direction::DownLeft
        } else {
            Direction::DownRight
        };
        assert(step(a, dir) == Some(j));
    }
    if is_adjacent(a, j) {
        let dir = choose|dir: Direction| step(a, dir) == Some(j);
        assert(shifted(set![a], dir).contains(j));
    }
}

/// The cells two steps from `c` in one direction, past a cell outside
/// `blockers`, are the ends of the jumps from `c` over such a cell.
pub proof fn lemma_jumps_are_jumps(c: Square, blockers: Set<int>, j: int)
    ensures
        jumps(set![c.0 as int], blockers).contains(j) <==> exists|mid: int|
            #[trigger] is_jump(c.0 as int, mid, j) && !blockers.contains(mid),
{
    let a = c.0 as int;
    assert forall|dir: Direction, mid: int|
        (step(j, dir.opposite()) == Some(mid) && step(mid, dir.opposite()) == Some(a)) <==> (step(
            a,
            dir,
        ) == Some(mid) && #[trigger] step(mid, dir) == Some(j)) by {
        lemma_step_back(a, mid, dir);
        lemma_step_back(mid, j, dir);
    }
    assert forall|dir: Direction| #[trigger]
        jumped(set![a], blockers, dir).contains(j) <==> exists|mid: int|
            step(a, dir) == Some(mid) && #[trigger] step(mid, dir) == Some(j) && !blockers.contains(
                mid,
            ) by {
        if jumped(set![a], blockers, dir).contains(j) {
            let mid = step(j, dir.opposite()).unwrap();
            assert(shifted(set![a], dir).contains(mid));
            assert(step(a, dir) == Some(mid) && step(mid, dir) == Some(j));
        }
        if exists|mid: int|
            step(a, dir) == Some(mid) && #[trigger] step(mid, dir) == Some(j) && !blockers.contains(
                mid,
            ) {
            let mid = choose|mid: int|
                step(a, dir) == Some(mid) && #[trigger] step(mid, dir) == Some(j)
                    && !blockers.contains(mid);
            assert(step(j, dir.opposite()) == Some(mid) && step(mid, dir.opposite()) == Some(a));
            assert(shifted(set![a], dir).contains(mid));
        }
    }
    if jumps(set![a], blockers).contains(j) {
        let dir = if jumped(set![a], blockers, Direction::Left).contains(j) {
            Direction::Left
        } else if jumped(set![a], blockers, Direction::Right).contains(j) {
            Direction::Right
        } else if jumped(set![a], blockers, Direction::UpLeft).contains(j) {
            Direction::UpLeft
        } else if jumped(set![a], blockers, Direction::UpRight).contains(j) {
            Direction::UpRight
        } else if jumped(set![a], blockers, Direction::DownLeft).contains(j) {
            Direction::DownLeft
        } else {
            Direction::DownRight
        };
        assert(jumped(set![a], blockers, dir).contains(j));
        let mid = choose|mid: int|
            step(a, dir) == Some(mid) && #[trigger] step(mid, dir) == Some(j) && !blockers.contains(
                mid,
            );
        assert(is_jump(a, mid, j) && !blockers.contains(mid));
    }
    if exists|mid: int| #[trigger] is_jump(a, mid, j) && !blockers.contains(mid) {
        let mid = choose|mid: int| #[trigger] is_jump(a, mid, j) && !blockers.contains(mid);
        let dir = choose|dir: Direction| step(a, dir) == Some(mid) && step(mid, dir) == Some(j);
        assert(jumped(set![a], blockers, dir).contains(j));
    }
}

impl Board {
    /// The kind of the single piece of the side to move on `from`.
    pub open spec fn solo_at(self, from: Square) -> Option<Piece> {
        if from.wf() {
            match self.cells[from.0 as int] {
                Cell::Single(side, piece) if side == self.turn => Some(piece),
                _ => None,
            }
        } else {
            None
        }
    }

    /// The kind of the top piece of the stack of the side to move on `from`.
    pub open spec fn stack_at(self, from: Square) -> Option<Piece> {
        if from.wf() {
            match self.cells[from.0 as int] {
                Cell::Stack(side, _, top) if side == self.turn => Some(top),
                _ => None,
            }
        } else {
            None
        }
    }

    /// Whether a piece of kind `kind` may land on `to`: the cell is empty, or the
    /// other side holds it and its topmost piece is of the kind that `kind` captures.
    pub open spec fn can_land(self, kind: Piece, to: Square) -> bool {
        to.wf() && match self.cells[to.0 as int] {
            Cell::Empty => true,
            cell => cell.side() == Some(self.turn.other()) && cell.top() == kind.spec_prey(),
        }
    }

    /// Whether a piece of kind `kind` may be put on top of what `to` holds: a
    /// single piece of the side to move, which is wise if `kind` is.
    pub open spec fn can_join(self, kind: Piece, to: Square) -> bool {
        to.wf() && match self.cells[to.0 as int] {
            Cell::Single(side, bottom) => side == self.turn && kind.may_top(bottom),
            _ => false,
        }
    }

    /// Whether `b` is two steps in one direction from `a`, and the cell between
    /// them holds no piece, or only what set out from `origin`.
    pub open spec fn clear_jump(self, a: Square, b: Square, origin: Square) -> bool {
        exists|mid: int| #[trigger]
            is_jump(a.0 as int, mid, b.0 as int) && (self.cells[mid] == Cell::Empty || mid
                == origin.0)
    }

    /// Whether a stack whose top piece is of kind `kind` may go from `a` to `b`,
    /// one step or a clear jump, where `origin` is the cell that the move set out from.
    pub open spec fn stack_reaches(
        self,
        kind: Piece,
        a: Square,
        b: Square,
        origin: Square,
    ) -> bool {
        self.can_land(kind, b) && (is_adjacent(a.0 as int, b.0 as int) || self.clear_jump(
            a,
            b,
            origin,
        ))
    }

    /// The rules of movement, shape by shape.
    pub open spec fn is_legal(self, mv: Mv) -> bool {
        match mv {
            Mv::SoloMove(fr, to) => self.solo_at(fr) matches Some(kind) && is_adjacent(
                fr.0 as int,
                to.0 as int,
            ) && self.can_land(kind, to),
            Mv::SoloStack(fr, to) => self.solo_at(fr) matches Some(kind) && is_adjacent(
                fr.0 as int,
                to.0 as int,
            ) && self.can_join(kind, to),
            Mv::SoloStackMove(fr, sq1, sq2) => self.solo_at(fr) matches Some(kind) && is_adjacent(
                fr.0 as int,
                sq1.0 as int,
            ) && self.can_join(kind, sq1) && (self.stack_reaches(kind, sq1, sq2, fr) || (sq2 == fr
                && is_adjacent(sq1.0 as int, sq2.0 as int))),
            Mv::StackMove(fr, to) => self.stack_at(fr) matches Some(kind) && self.stack_reaches(
                kind,
                fr,
                to,
                fr,
            ),
            Mv::StackMoveDestack(fr, sq1, sq2) => self.stack_at(fr) matches Some(kind)
                && self.stack_reaches(kind, fr, sq1, fr) && is_adjacent(sq1.0 as int, sq2.0 as int)
                && (self.can_land(kind, sq2) || self.can_join(kind, sq2) || (sq2 == fr
                && is_adjacent(fr.0 as int, sq1.0 as int))),
            Mv::StackDestack(fr, to) => self.stack_at(fr) matches Some(kind) && is_adjacent(
                fr.0 as int,
                to.0 as int,
            ) && self.can_land(kind, to),
            Mv::StackStack(fr, to) => self.stack_at(fr) matches Some(kind) && is_adjacent(
                fr.0 as int,
                to.0 as int,
            ) && self.can_join(kind, to),
            Mv::StackStackMove(fr, sq1, sq2) => self.stack_at(fr) matches Some(kind)
                && is_adjacent(fr.0 as int, sq1.0 as int) && self.can_join(kind, sq1)
                && self.stack_reaches(kind, sq1, sq2, sq1),
        }
    }

    /// What the sets of the group of kind `kind` say of a cell of the board.
    pub proof fn lemma_group_cells(self, kind: Piece, c: Square)
        requires
            self.wf(),
            c.wf(),
        ensures
            self.group(kind).origins(Shape::SoloMove).contains(c.0 as int) <==> self.solo_at(c)
                == Some(kind),
            self.group(kind).origins(Shape::StackMove).contains(c.0 as int) <==> self.stack_at(c)
                == Some(kind),
            self.group(kind).landing().contains(c.0 as int) <==> self.can_land(kind, c),
            self.group(kind).joinable().contains(c.0 as int) <==> self.can_join(kind, c),
            self.group(kind).stackable.contains(c.0 as int) <==> self.can_join(kind, c),
            self.group(kind).free().contains(c.0 as int) <==> self.cells[c.0 as int]
                == Cell::Empty,
            self.group(kind).occupied().contains(c.0 as int) <==> self.cells[c.0 as int]
                != Cell::Empty,
    {
        assert(self.cells[c.0 as int].wf());
    }
}

impl Board {
    /// What the reach sets of a group say of two cells of the board.
    pub proof fn lemma_group_reach(self, kind: Piece, a: Square, origin: Square, j: int)
        requires
            self.wf(),
            a.wf(),
            origin.wf(),
        ensures
            GroupView::near(a).contains(j) <==> is_adjacent(a.0 as int, j),
            GroupView::near(a).contains(j) ==> 0 <= j < 45 && j != a.0,
            self.group(kind).far(a, origin).contains(j) ==> 0 <= j < 45,
            0 <= j < 45 ==> (self.group(kind).far(a, origin).contains(j) <==> self.clear_jump(
                a,
                Square(j as u8),
                origin,
            )),
    {
        let g = self.group(kind);
        let blockers = g.occupied().difference(set![origin.0 as int]);
        lemma_near_adjacent(a, j);
        if GroupView::near(a).contains(j) {
            lemma_near(a, j);
        }
        lemma_reach_on_board(set![a.0 as int], blockers);
        lemma_jumps_are_jumps(a, blockers, j);
        if 0 <= j < 45 {
            let b = Square(j as u8);
            if g.far(a, origin).contains(j) {
                let mid = choose|mid: int| #[trigger]
                    is_jump(a.0 as int, mid, j) && !blockers.contains(mid);
                let dir = choose|dir: Direction|
                    step(a.0 as int, dir) == Some(mid) && step(mid, dir) == Some(j);
                lemma_step_on_board(a.0 as int, dir);
                assert(is_jump(a.0 as int, mid, b.0 as int) && (self.cells[mid] == Cell::Empty
                    || mid == origin.0));
            }
            if self.clear_jump(a, b, origin) {
                let mid = choose|mid: int| #[trigger]
                    is_jump(a.0 as int, mid, b.0 as int) && (self.cells[mid] == Cell::Empty || mid
                        == origin.0);
                let dir = choose|dir: Direction|
                    step(a.0 as int, dir) == Some(mid) && step(mid, dir) == Some(j);
                lemma_step_on_board(a.0 as int, dir);
                assert(is_jump(a.0 as int, mid, j) && !blockers.contains(mid));
            }
        }
    }

    /// A move of three cells that the generator lists from `from` by way of
    /// `mid` ends on a cell that the rules allow.
    pub proof fn lemma_last_sound(
        self,
        kind: Piece,
        via: Via,
        from: Square,
        mid: Square,
        mv: Mv,
    ) -> (to: Square)
        requires
            self.wf(),
            from.wf(),
            mid.wf(),
            self.group(kind).last_moves(via, from, mid).contains(mv),
        ensures
            to.wf(),
            is_adjacent(mid.0 as int, to.0 as int) || via != Via::StackMoveDestackNear && via
                != Via::StackMoveDestackFar,
            match via {
                Via::SoloStackMove => mv == Mv::SoloStackMove(from, mid, to) && (self.stack_reaches(
                    kind,
                    mid,
                    to,
                    from,
                ) || (to == from && is_adjacent(mid.0 as int, to.0 as int))),
                Via::StackMoveDestackNear => mv == Mv::StackMoveDestack(from, mid, to) && (
                self.can_land(kind, to) || self.can_join(kind, to) || to == from),
                Via::StackMoveDestackFar => mv == Mv::StackMoveDestack(from, mid, to) && (
                self.can_land(kind, to) || self.can_join(kind, to)),
                Via::StackStackMove => mv == Mv::StackStackMove(from, mid, to)
                    && self.stack_reaches(kind, mid, to, mid),
            },
    {
        let g = self.group(kind);
        lemma_reach_on_board(set![mid.0 as int], g.occupied().difference(set![from.0 as int]));
        lemma_reach_on_board(set![mid.0 as int], g.occupied().difference(set![mid.0 as int]));
        match via {
            Via::SoloStackMove => {
                let near = GroupView::near(mid).intersect(g.landing() + set![from.0 as int]);
                let far = g.far(mid, from).intersect(g.landing());
                lemma_concat_contains(
                    triples(Triple::SoloStackMove, from, mid, ascending(near)),
                    triples(Triple::SoloStackMove, from, mid, ascending(far)),
                    mv,
                );
                let to = if triples(Triple::SoloStackMove, from, mid, ascending(near)).contains(
                    mv,
                ) {
                    lemma_triples_member(Triple::SoloStackMove, from, mid, near, mv)
                } else {
                    lemma_triples_member(Triple::SoloStackMove, from, mid, far, mv)
                };
                self.lemma_group_reach(kind, mid, from, to.0 as int);
                self.lemma_group_cells(kind, to);
                to
            },
            Via::StackMoveDestackNear => {
                let near = GroupView::near(mid).intersect(g.destack(from, true));
                let to = lemma_triples_member(Triple::StackMoveDestack, from, mid, near, mv);
                self.lemma_group_reach(kind, mid, from, to.0 as int);
                self.lemma_group_cells(kind, to);
                to
            },
            Via::StackMoveDestackFar => {
                let near = GroupView::near(mid).intersect(g.destack(from, false));
                let to = lemma_triples_member(Triple::StackMoveDestack, from, mid, near, mv);
                self.lemma_group_reach(kind, mid, from, to.0 as int);
                self.lemma_group_cells(kind, to);
                to
            },
            Via::StackStackMove => {
                let near = GroupView::near(mid).intersect(g.landing());
                let far = g.far(mid, mid).intersect(g.landing());
                lemma_concat_contains(
                    triples(Triple::StackStackMove, from, mid, ascending(near)),
                    triples(Triple::StackStackMove, from, mid, ascending(far)),
                    mv,
                );
                let to = if triples(Triple::StackStackMove, from, mid, ascending(near)).contains(
                    mv,
                ) {
                    lemma_triples_member(Triple::StackStackMove, from, mid, near, mv)
                } else {
                    lemma_triples_member(Triple::StackStackMove, from, mid, far, mv)
                };
                self.lemma_group_reach(kind, mid, mid, to.0 as int);
                self.lemma_group_cells(kind, to);
                to
            },
        }
    }

    /// A move of three cells that the generator lists from `from` goes by way of
    /// a cell that the rules allow, and ends on one.
    pub proof fn lemma_via_sound(self, kind: Piece, via: Via, from: Square, mv: Mv)
        requires
            self.wf(),
            from.wf(),
            self.group(kind).via_moves(via, from).contains(mv),
            match via {
                Via::SoloStackMove => self.solo_at(from) == Some(kind),
                _ => self.stack_at(from) == Some(kind),
            },
        ensures
            self.is_legal(mv),
    {
        let g = self.group(kind);
        let mids = g.mids(via, from);
        lemma_reach_on_board(set![from.0 as int], g.occupied().difference(set![from.0 as int]));
        lemma_ascending(mids);
        let i = lemma_concat_map_member(ascending(mids), g.last_fn(via, from), mv);
        let mid = ascending(mids)[i];
        let to = self.lemma_last_sound(kind, via, from, mid, mv);
        self.lemma_group_reach(kind, from, from, mid.0 as int);
        self.lemma_group_cells(kind, mid);
    }

    /// A move that the generator lists from `from` is one that the rules allow.
    pub proof fn lemma_from_sound(self, kind: Piece, shape: Shape, from: Square, mv: Mv)
        requires
            self.wf(),
            from.wf(),
            self.group(kind).origins(shape).contains(from.0 as int),
            self.group(kind).moves_from(shape, from).contains(mv),
        ensures
            self.is_legal(mv),
    {
        let g = self.group(kind);
        let near_land = GroupView::near(from).intersect(g.landing());
        let near_join = GroupView::near(from).intersect(g.joinable());
        let far_land = g.far(from, from).intersect(g.landing());
        lemma_reach_on_board(set![from.0 as int], g.occupied().difference(set![from.0 as int]));
        self.lemma_group_cells(kind, from);
        match shape {
            Shape::SoloMove => {
                let to = lemma_pairs_member(Pair::SoloMove, from, near_land, mv);
                self.lemma_group_reach(kind, from, from, to.0 as int);
                self.lemma_group_cells(kind, to);
            },
            Shape::SoloStack => {
                let to = lemma_pairs_member(Pair::SoloStack, from, near_join, mv);
                self.lemma_group_reach(kind, from, from, to.0 as int);
                self.lemma_group_cells(kind, to);
            },
            Shape::SoloStackMove => {
                self.lemma_via_sound(kind, Via::SoloStackMove, from, mv);
            },
            Shape::StackMove => {
                lemma_concat_contains(
                    pairs(Pair::StackMove, from, ascending(near_land)),
                    pairs(Pair::StackMove, from, ascending(far_land)),
                    mv,
                );
                let to = if pairs(Pair::StackMove, from, ascending(near_land)).contains(mv) {
                    lemma_pairs_member(Pair::StackMove, from, near_land, mv)
                } else {
                    lemma_pairs_member(Pair::StackMove, from, far_land, mv)
                };
                self.lemma_group_reach(kind, from, from, to.0 as int);
                self.lemma_group_cells(kind, to);
            },
            Shape::StackMoveDestack => {
                lemma_concat_contains(
                    g.via_moves(Via::StackMoveDestackNear, from),
                    g.via_moves(Via::StackMoveDestackFar, from),
                    mv,
                );
                if g.via_moves(Via::StackMoveDestackNear, from).contains(mv) {
                    self.lemma_via_sound(kind, Via::StackMoveDestackNear, from, mv);
                } else {
                    self.lemma_via_sound(kind, Via::StackMoveDestackFar, from, mv);
                }
            },
            Shape::StackDestack => {
                let to = lemma_pairs_member(Pair::StackDestack, from, near_land, mv);
                self.lemma_group_reach(kind, from, from, to.0 as int);
                self.lemma_group_cells(kind, to);
            },
            Shape::StackStack => {
                let to = lemma_pairs_member(Pair::StackStack, from, near_join, mv);
                self.lemma_group_reach(kind, from, from, to.0 as int);
                self.lemma_group_cells(kind, to);
            },
            Shape::StackStackMove => {
                self.lemma_via_sound(kind, Via::StackStackMove, from, mv);
            },
        }
    }
}

/// What one of two lists holds, they hold together.
pub proof fn lemma_concat_has(a: Seq<Mv>, b: Seq<Mv>, mv: Mv)
    requires
        a.contains(mv) || b.contains(mv),
    ensures
        (a + b).contains(mv),
{
    if a.contains(mv) {
        let i = choose|i: int| 0 <= i < a.len() && a[i] == mv;
        assert((a + b)[i] == mv);
    } else {
        let i = choose|i: int| 0 <= i < b.len() && b[i] == mv;
        assert((a + b)[a.len() + i] == mv);
    }
}

/// A move in the list of one of the cells is in the list put together from the
/// lists of all cells.
pub proof fn lemma_concat_map_has(s: Seq<Square>, f: spec_fn(Square) -> Seq<Mv>, i: int, mv: Mv)
    requires
        0 <= i < s.len(),
        f(s[i]).contains(mv),
    ensures
        concat_map(s, f).contains(mv),
    decreases s.len(),
{
    if i < s.len() - 1 {
        lemma_concat_map_has(s.drop_last(), f, i, mv);
    }
    lemma_concat_has(concat_map(s.drop_last(), f), f(s.last()), mv);
}

/// The list from `from` to the cells of `targets` holds the move to each of them.
pub proof fn lemma_pairs_has(shape: Pair, from: Square, targets: Set<int>, to: Square)
    requires
        to.wf(),
        targets.contains(to.0 as int),
    ensures
        pairs(shape, from, ascending(targets)).contains(shape.spec_mv(from, to)),
{
    lemma_ascending_has(targets, to);
    let j = choose|j: int| 0 <= j < ascending(targets).len() && ascending(targets)[j] == to;
    assert(pairs(shape, from, ascending(targets))[j] == shape.spec_mv(from, to));
}

/// The list from `from` by way of `mid` to the cells of `targets` holds the move
/// to each of them.
pub proof fn lemma_triples_has(
    shape: Triple,
    from: Square,
    mid: Square,
    targets: Set<int>,
    to: Square,
)
    requires
        to.wf(),
        targets.contains(to.0 as int),
    ensures
        triples(shape, from, mid, ascending(targets)).contains(shape.spec_mv(from, mid, to)),
{
    lemma_ascending_has(targets, to);
    let j = choose|j: int| 0 <= j < ascending(targets).len() && ascending(targets)[j] == to;
    assert(triples(shape, from, mid, ascending(targets))[j] == shape.spec_mv(from, mid, to));
}

impl GroupView {
    /// A move of the group is in the list of one of the shapes.
    pub proof fn lemma_moves_member(self, mv: Mv) -> (shape: Shape)
        requires
            self.moves().contains(mv),
        ensures
            self.shape_moves(shape).contains(mv),
    {
        let s1 = self.shape_moves(Shape::SoloMove);
        let s2 = s1 + self.shape_moves(Shape::SoloStack);
        let s3 = s2 + self.shape_moves(Shape::SoloStackMove);
        let s4 = s3 + self.shape_moves(Shape::StackMove);
        let s5 = s4 + self.shape_moves(Shape::StackMoveDestack);
        let s6 = s5 + self.shape_moves(Shape::StackDestack);
        let s7 = s6 + self.shape_moves(Shape::StackStack);
        lemma_concat_contains(s7, self.shape_moves(Shape::StackStackMove), mv);
        if self.shape_moves(Shape::StackStackMove).contains(mv) {
            Shape::StackStackMove
        } else {
            lemma_concat_contains(s6, self.shape_moves(Shape::StackStack), mv);
            if self.shape_moves(Shape::StackStack).contains(mv) {
                Shape::StackStack
            } else {
                lemma_concat_contains(s5, self.shape_moves(Shape::StackDestack), mv);
                if self.shape_moves(Shape::StackDestack).contains(mv) {
                    Shape::StackDestack
                } else {
                    lemma_concat_contains(s4, self.shape_moves(Shape::StackMoveDestack), mv);
                    if self.shape_moves(Shape::StackMoveDestack).contains(mv) {
                        Shape::StackMoveDestack
                    } else {
                        lemma_concat_contains(s3, self.shape_moves(Shape::StackMove), mv);
                        if self.shape_moves(Shape::StackMove).contains(mv) {
                            Shape::StackMove
                        } else {
                            lemma_concat_contains(s2, self.shape_moves(Shape::SoloStackMove), mv);
                            if self.shape_moves(Shape::SoloStackMove).contains(mv) {
                                Shape::SoloStackMove
                            } else {
                                lemma_concat_contains(s1, self.shape_moves(Shape::SoloStack), mv);
                                if self.shape_moves(Shape::SoloStack).contains(mv) {
                                    Shape::SoloStack
                                } else {
                                    Shape::SoloMove
                                }
                            }
                        }
                    }
                }
            }
        }
    }

    /// A move in the list of one of the shapes is a move of the group.
    pub proof fn lemma_moves_has(self, shape: Shape, mv: Mv)
        requires
            self.shape_moves(shape).contains(mv),
        ensures
            self.moves().contains(mv),
    {
        let s1 = self.shape_moves(Shape::SoloMove);
        let s2 = s1 + self.shape_moves(Shape::SoloStack);
        let s3 = s2 + self.shape_moves(Shape::SoloStackMove);
        let s4 = s3 + self.shape_moves(Shape::StackMove);
        let s5 = s4 + self.shape_moves(Shape::StackMoveDestack);
        let s6 = s5 + self.shape_moves(Shape::StackDestack);
        let s7 = s6 + self.shape_moves(Shape::StackStack);
        if shape == Shape::SoloMove || shape == Shape::SoloStack {
            lemma_concat_has(s1, self.shape_moves(Shape::SoloStack), mv);
        }
        if s2.contains(mv) || shape == Shape::SoloStackMove {
            lemma_concat_has(s2, self.shape_moves(Shape::SoloStackMove), mv);
        }
        if s3.contains(mv) || shape == Shape::StackMove {
            lemma_concat_has(s3, self.shape_moves(Shape::StackMove), mv);
        }
        if s4.contains(mv) || shape == Shape::StackMoveDestack {
            lemma_concat_has(s4, self.shape_moves(Shape::StackMoveDestack), mv);
        }
        if s5.contains(mv) || shape == Shape::StackDestack {
            lemma_concat_has(s5, self.shape_moves(Shape::StackDestack), mv);
        }
        if s6.contains(mv) || shape == Shape::StackStack {
            lemma_concat_has(s6, self.shape_moves(Shape::StackStack), mv);
        }
        lemma_concat_has(s7, self.shape_moves(Shape::StackStackMove), mv);
    }
}

impl Board {
    /// A move of the group of one kind is a legal move, and the other way round.
    pub proof fn lemma_legal_moves_groups(self, mv: Mv)
        ensures
            self.legal_moves().contains(mv) <==> exists|kind: Piece| #[trigger]
                self.group(kind).moves().contains(mv),
    {
        let r = self.group(Piece::Rock).moves();
        let p = self.group(Piece::Paper).moves();
        let s = self.group(Piece::Scissors).moves();
        let w = self.group(Piece::Wise).moves();
        if self.legal_moves().contains(mv) {
            lemma_concat_contains(r + p + s, w, mv);
            if !w.contains(mv) {
                lemma_concat_contains(r + p, s, mv);
                if !s.contains(mv) {
                    lemma_concat_contains(r, p, mv);
                }
            }
        }
        if exists|kind: Piece| #[trigger] self.group(kind).moves().contains(mv) {
            let kind = choose|kind: Piece| #[trigger] self.group(kind).moves().contains(mv);
            if kind == Piece::Rock || kind == Piece::Paper {
                lemma_concat_has(r, p, mv);
            }
            if (r + p).contains(mv) || kind == Piece::Scissors {
                lemma_concat_has(r + p, s, mv);
            }
            lemma_concat_has(r + p + s, w, mv);
        }
    }

    /// Every move that the generator lists is one that the rules allow.
    pub proof fn lemma_legal_moves_sound(self, mv: Mv)
        requires
            self.wf(),
            self.legal_moves().contains(mv),
        ensures
            self.is_legal(mv),
    {
        self.lemma_legal_moves_groups(mv);
        let kind = choose|kind: Piece| #[trigger] self.group(kind).moves().contains(mv);
        let g = self.group(kind);
        let shape = g.lemma_moves_member(mv);
        let origins = g.origins(shape);
        lemma_ascending(origins);
        let i = lemma_concat_map_member(ascending(origins), g.from_fn(shape), mv);
        self.lemma_from_sound(kind, shape, ascending(origins)[i], mv);
    }

    /// A move that the generator lists from an origin of a group is a legal move.
    pub proof fn lemma_listed(self, kind: Piece, shape: Shape, from: Square, mv: Mv)
        requires
            from.wf(),
            self.group(kind).origins(shape).contains(from.0 as int),
            self.group(kind).moves_from(shape, from).contains(mv),
        ensures
            self.legal_moves().contains(mv),
    {
        let g = self.group(kind);
        let origins = g.origins(shape);
        lemma_ascending_has(origins, from);
        let i = choose|i: int| 0 <= i < ascending(origins).len() && ascending(origins)[i] == from;
        lemma_concat_map_has(ascending(origins), g.from_fn(shape), i, mv);
        g.lemma_moves_has(shape, mv);
        self.lemma_legal_moves_groups(mv);
    }
}

impl Board {
    /// The generator lists, from `from` by way of `mid`, the move to each cell
    /// that the rules allow as the last.
    pub proof fn lemma_via_complete(
        self,
        kind: Piece,
        via: Via,
        from: Square,
        mid: Square,
        to: Square,
    )
        requires
            self.wf(),
            from.wf(),
            mid.wf(),
            to.wf(),
            self.group(kind).mids(via, from).contains(mid.0 as int),
            match via {
                Via::SoloStackMove => self.stack_reaches(kind, mid, to, from) || (to == from
                    && is_adjacent(mid.0 as int, to.0 as int)),
                Via::StackMoveDestackNear => is_adjacent(mid.0 as int, to.0 as int) && (
                self.can_land(kind, to) || self.can_join(kind, to) || to == from),
                Via::StackMoveDestackFar => is_adjacent(mid.0 as int, to.0 as int) && (
                self.can_land(kind, to) || self.can_join(kind, to)),
                Via::StackStackMove => self.stack_reaches(kind, mid, to, mid),
            },
        ensures
            self.group(kind).via_moves(via, from).contains(
                match via {
                    Via::SoloStackMove => Mv::SoloStackMove(from, mid, to),
                    Via::StackStackMove => Mv::StackStackMove(from, mid, to),
                    _ => Mv::StackMoveDestack(from, mid, to),
                },
            ),
    {
        let g = self.group(kind);
        let mv = match via {
            Via::SoloStackMove => Mv::SoloStackMove(from, mid, to),
            Via::StackStackMove => Mv::StackStackMove(from, mid, to),
            _ => Mv::StackMoveDestack(from, mid, to),
        };
        self.lemma_group_cells(kind, to);
        match via {
            Via::SoloStackMove => {
                self.lemma_group_reach(kind, mid, from, to.0 as int);
                let near = GroupView::near(mid).intersect(g.landing() + set![from.0 as int]);
                let far = g.far(mid, from).intersect(g.landing());
                if near.contains(to.0 as int) {
                    lemma_triples_has(Triple::SoloStackMove, from, mid, near, to);
                } else {
                    lemma_triples_has(Triple::SoloStackMove, from, mid, far, to);
                }
                lemma_concat_has(
                    triples(Triple::SoloStackMove, from, mid, ascending(near)),
                    triples(Triple::SoloStackMove, from, mid, ascending(far)),
                    mv,
                );
            },
            Via::StackMoveDestackNear => {
                self.lemma_group_reach(kind, mid, from, to.0 as int);
                let near = GroupView::near(mid).intersect(g.destack(from, true));
                lemma_triples_has(Triple::StackMoveDestack, from, mid, near, to);
            },
            Via::StackMoveDestackFar => {
                self.lemma_group_reach(kind, mid, from, to.0 as int);
                let near = GroupView::near(mid).intersect(g.destack(from, false));
                lemma_triples_has(Triple::StackMoveDestack, from, mid, near, to);
            },
            Via::StackStackMove => {
                self.lemma_group_reach(kind, mid, mid, to.0 as int);
                let near = GroupView::near(mid).intersect(g.landing());
                let far = g.far(mid, mid).intersect(g.landing());
                if near.contains(to.0 as int) {
                    lemma_triples_has(Triple::StackStackMove, from, mid, near, to);
                } else {
                    lemma_triples_has(Triple::StackStackMove, from, mid, far, to);
                }
                lemma_concat_has(
                    triples(Triple::StackStackMove, from, mid, ascending(near)),
                    triples(Triple::StackStackMove, from, mid, ascending(far)),
                    mv,
                );
            },
        }
        assert(g.last_moves(via, from, mid).contains(mv));
        let mids = g.mids(via, from);
        lemma_ascending_has(mids, mid);
        let i = choose|i: int| 0 <= i < ascending(mids).len() && ascending(mids)[i] == mid;
        lemma_concat_map_has(ascending(mids), g.last_fn(via, from), i, mv);
    }

    /// The generator lists every move that the rules allow.
    pub proof fn lemma_legal_moves_complete(self, mv: Mv)
        requires
            self.wf(),
            self.is_legal(mv),
        ensures
            self.legal_moves().contains(mv),
    {
        match mv {
            Mv::SoloMove(fr, to) => {
                let kind = self.solo_at(fr).unwrap();
                let g = self.group(kind);
                self.lemma_group_cells(kind, fr);
                self.lemma_group_cells(kind, to);
                self.lemma_group_reach(kind, fr, fr, to.0 as int);
                lemma_pairs_has(
                    Pair::SoloMove,
                    fr,
                    GroupView::near(fr).intersect(g.landing()),
                    to,
                );
                self.lemma_listed(kind, Shape::SoloMove, fr, mv);
            },
            Mv::SoloStack(fr, to) => {
                let kind = self.solo_at(fr).unwrap();
                let g = self.group(kind);
                self.lemma_group_cells(kind, fr);
                self.lemma_group_cells(kind, to);
                self.lemma_group_reach(kind, fr, fr, to.0 as int);
                lemma_pairs_has(
                    Pair::SoloStack,
                    fr,
                    GroupView::near(fr).intersect(g.joinable()),
                    to,
                );
                self.lemma_listed(kind, Shape::SoloStack, fr, mv);
            },
            Mv::SoloStackMove(fr, sq1, sq2) => {
                let kind = self.solo_at(fr).unwrap();
                self.lemma_group_cells(kind, fr);
                self.lemma_group_cells(kind, sq1);
                self.lemma_group_reach(kind, fr, fr, sq1.0 as int);
                self.lemma_via_complete(kind, Via::SoloStackMove, fr, sq1, sq2);
                self.lemma_listed(kind, Shape::SoloStackMove, fr, mv);
            },
            Mv::StackMove(fr, to) => {
                let kind = self.stack_at(fr).unwrap();
                let g = self.group(kind);
                self.lemma_group_cells(kind, fr);
                self.lemma_group_cells(kind, to);
                self.lemma_group_reach(kind, fr, fr, to.0 as int);
                let near = GroupView::near(fr).intersect(g.landing());
                let far = g.far(fr, fr).intersect(g.landing());
                if near.contains(to.0 as int) {
                    lemma_pairs_has(Pair::StackMove, fr, near, to);
                } else {
                    lemma_pairs_has(Pair::StackMove, fr, far, to);
                }
                lemma_concat_has(
                    pairs(Pair::StackMove, fr, ascending(near)),
                    pairs(Pair::StackMove, fr, ascending(far)),
                    mv,
                );
                self.lemma_listed(kind, Shape::StackMove, fr, mv);
            },
            Mv::StackMoveDestack(fr, sq1, sq2) => {
                let kind = self.stack_at(fr).unwrap();
                let g = self.group(kind);
                self.lemma_group_cells(kind, fr);
                self.lemma_group_cells(kind, sq1);
                self.lemma_group_cells(kind, sq2);
                self.lemma_group_reach(kind, fr, fr, sq1.0 as int);
                if is_adjacent(fr.0 as int, sq1.0 as int) {
                    self.lemma_via_complete(kind, Via::StackMoveDestackNear, fr, sq1, sq2);
                } else {
                    self.lemma_via_complete(kind, Via::StackMoveDestackFar, fr, sq1, sq2);
                }
                lemma_concat_has(
                    g.via_moves(Via::StackMoveDestackNear, fr),
                    g.via_moves(Via::StackMoveDestackFar, fr),
                    mv,
                );
                self.lemma_listed(kind, Shape::StackMoveDestack, fr, mv);
            },
            Mv::StackDestack(fr, to) => {
                let kind = self.stack_at(fr).unwrap();
                let g = self.group(kind);
                self.lemma_group_cells(kind, fr);
                self.lemma_group_cells(kind, to);
                self.lemma_group_reach(kind, fr, fr, to.0 as int);
                lemma_pairs_has(
                    Pair::StackDestack,
                    fr,
                    GroupView::near(fr).intersect(g.landing()),
                    to,
                );
                self.lemma_listed(kind, Shape::StackDestack, fr, mv);
            },
            Mv::StackStack(fr, to) => {
                let kind = self.stack_at(fr).unwrap();
                let g = self.group(kind);
                self.lemma_group_cells(kind, fr);
                self.lemma_group_cells(kind, to);
                self.lemma_group_reach(kind, fr, fr, to.0 as int);
                lemma_pairs_has(
                    Pair::StackStack,
                    fr,
                    GroupView::near(fr).intersect(g.joinable()),
                    to,
                );
                self.lemma_listed(kind, Shape::StackStack, fr, mv);
            },
            Mv::StackStackMove(fr, sq1, sq2) => {
                let kind = self.stack_at(fr).unwrap();
                self.lemma_group_cells(kind, fr);
                self.lemma_group_cells(kind, sq1);
                self.lemma_group_reach(kind, fr, fr, sq1.0 as int);
                self.lemma_via_complete(kind, Via::StackStackMove, fr, sq1, sq2);
                self.lemma_listed(kind, Shape::StackStackMove, fr, mv);
            },
        }
    }

    /// The generator lists exactly the moves that the rules allow.
    pub proof fn lemma_legal_moves_exact(self, mv: Mv)
        requires
            self.wf(),
        ensures
            self.legal_moves().contains(mv) <==> self.is_legal(mv),
    {
        if self.legal_moves().contains(mv) {
            self.lemma_legal_moves_sound(mv);
        }
        if self.is_legal(mv) {
            self.lemma_legal_moves_complete(mv);
        }
    }

    /// A legal move can be applied.
    pub proof fn lemma_legal_applicable(self, mv: Mv)
        requires
            self.wf(),
            self.is_legal(mv),
        ensures
            self.applicable(mv),
    {
        match mv {
            Mv::SoloMove(fr, to) => {},
            Mv::SoloStack(fr, to) => {
                lemma_near_adjacent(fr, to.0 as int);
                lemma_near(fr, to.0 as int);
            },
            Mv::SoloStackMove(fr, sq1, sq2) => {
                lemma_near_adjacent(fr, sq1.0 as int);
                lemma_near(fr, sq1.0 as int);
            },
            Mv::StackMove(fr, to) => {},
            Mv::StackMoveDestack(fr, sq1, sq2) => {
                lemma_near_adjacent(sq1, sq2.0 as int);
                lemma_near(sq1, sq2.0 as int);
            },
            Mv::StackDestack(fr, to) => {},
            Mv::StackStack(fr, to) => {},
            Mv::StackStackMove(fr, sq1, sq2) => {},
        }
    }

    /// After a legal move the board is well formed.
    pub proof fn lemma_legal_move_keeps_wf(self, mv: Mv)
        requires
            self.wf(),
            self.legal_moves().contains(mv),
        ensures
            self.applicable(mv),
            self.apply(mv).wf(),
    {
        self.lemma_legal_moves_sound(mv);
        self.lemma_legal_applicable(mv);
        self.lemma_apply_wf(mv);
    }
}

} // verus!
