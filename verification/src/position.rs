use crate::bitboard::{Bitboard, Bitmasks};
use crate::layer::Layer;
use crate::side::Side;
use crate::square::Square;
use core::ops::Not;
use vstd::prelude::*;

verus! {

/// The four kinds of piece. Rock beats scissors, paper beats rock, scissors beat
/// paper; the wise beats nothing and nothing beats it.
#[derive(Clone, Copy, PartialEq, Eq, Debug, Structural)]
#[must_use]
pub enum Piece {
    Rock,
    Paper,
    Scissors,
    Wise,
}

impl Piece {
    /// Place of this kind's sets in a position.
    pub open spec fn spec_index(self) -> usize {
        match self {
            Piece::Rock => 0,
            Piece::Paper => 1,
            Piece::Scissors => 2,
            Piece::Wise => 3,
        }
    }

    /// Place of this kind's sets in a position.
    #[verifier::when_used_as_spec(spec_index)]
    pub fn index(self) -> (i: usize)
        ensures
            i == self.spec_index(),
    {
        match self {
            Piece::Rock => 0,
            Piece::Paper => 1,
            Piece::Scissors => 2,
            Piece::Wise => 3,
        }
    }

    /// The kind that this kind captures, if any.
    pub open spec fn spec_prey(self) -> Option<Piece> {
        match self {
            Piece::Rock => Some(Piece::Scissors),
            Piece::Paper => Some(Piece::Rock),
            Piece::Scissors => Some(Piece::Paper),
            Piece::Wise => None,
        }
    }

    /// Whether a piece of this kind may sit on top of a piece of kind `bottom`.
    pub open spec fn may_top(self, bottom: Piece) -> bool {
        self == Piece::Wise ==> bottom == Piece::Wise
    }
}

/// What a cell of the board holds.
#[derive(Clone, Copy, PartialEq, Eq, Debug, Structural)]
pub enum Cell {
    Empty,
    /// One piece of the given side and kind.
    Single(Side, Piece),
    /// Two pieces of one side: the kind at the bottom, then the kind on top.
    Stack(Side, Piece, Piece),
}

impl Cell {
    /// The side whose pieces the cell holds.
    pub open spec fn side(self) -> Option<Side> {
        match self {
            Cell::Empty => None,
            Cell::Single(s, _) => Some(s),
            Cell::Stack(s, _, _) => Some(s),
        }
    }

    /// The topmost piece of the cell: the one that moves and can be captured.
    pub open spec fn top(self) -> Option<Piece> {
        match self {
            Cell::Empty => None,
            Cell::Single(_, p) => Some(p),
            Cell::Stack(_, _, t) => Some(t),
        }
    }

    /// The bottom piece of the cell, which is its only piece where it holds one.
    pub open spec fn bottom(self) -> Option<Piece> {
        match self {
            Cell::Empty => None,
            Cell::Single(_, p) => Some(p),
            Cell::Stack(_, b, _) => Some(b),
        }
    }

    /// A wise piece sits on top of a wise piece only.
    pub open spec fn wf(self) -> bool {
        match self {
            Cell::Stack(_, b, t) => t.may_top(b),
            _ => true,
        }
    }
}

/// The state of a game as the rules see it.
pub struct Board {
    /// The 45 cells by linear index.
    pub cells: Seq<Cell>,
    /// The side to move.
    pub turn: Side,
    /// Half moves played: the game is drawn at twenty.
    pub halfmoves: int,
    /// The number of the move, which no rule reads.
    pub fullmoves: int,
}

impl Board {
    /// There are 45 cells, and each is well formed.
    pub open spec fn wf(self) -> bool {
        &&& self.cells.len() == 45
        &&& forall|i: int| 0 <= i < 45 ==> (#[trigger] self.cells[i]).wf()
    }

    /// Cells that `side` occupies.
    pub open spec fn side_cells(self, side: Side) -> Set<int> {
        Set::new(|i: int| 0 <= i < 45 && self.cells[i].side() == Some(side))
    }

    /// Cells with exactly one piece.
    pub open spec fn single_cells(self) -> Set<int> {
        Set::new(|i: int| 0 <= i < 45 && self.cells[i] is Single)
    }

    /// Cells with two pieces.
    pub open spec fn stack_cells(self) -> Set<int> {
        Set::new(|i: int| 0 <= i < 45 && self.cells[i] is Stack)
    }

    /// Cells whose topmost piece is of kind `piece`.
    pub open spec fn top_cells(self, piece: Piece) -> Set<int> {
        Set::new(|i: int| 0 <= i < 45 && self.cells[i].top() == Some(piece))
    }

    /// Cells with a piece of kind `piece`, at the bottom or on top.
    pub open spec fn kind_cells(self, piece: Piece) -> Set<int> {
        Set::new(
            |i: int|
                0 <= i < 45 && (self.cells[i].bottom() == Some(piece) || self.cells[i].top()
                    == Some(piece)),
        )
    }
}

/// The state of a game in cell sets: who holds which cells, and where each
/// kind of piece lies at the bottom and on top.
#[derive(Clone, Copy, Debug)]
pub struct Position {
    /// Cells that each side occupies: white, then black.
    pub sides: [Bitboard; 2],
    /// For each kind of piece, the cells where it is the bottom piece and the
    /// cells where it is the piece on top of another.
    pub pieces: [[Bitboard; 2]; 4],
    /// The side to move.
    pub turn: Side,
    /// Half moves played: one more with every move, whatever the move takes.
    pub halfmoves: i32,
    /// The number of the move, which no rule reads.
    pub fullmoves: i32,
}

impl View for Position {
    type V = Board;

    open spec fn view(&self) -> Board {
        Board {
            cells: Seq::new(45, |i: int| self.cell(i)),
            turn: self.turn,
            halfmoves: self.halfmoves as int,
            fullmoves: self.fullmoves as int,
        }
    }
}

impl Position {
    /// Cells that `side` occupies.
    pub open spec fn side_set(&self, side: Side) -> Set<int> {
        self.sides[side.spec_index() as int]@
    }

    /// Cells where a piece of kind `piece` is in layer `layer`.
    pub open spec fn piece_set(&self, piece: Piece, layer: Layer) -> Set<int> {
        self.pieces[piece.spec_index() as int][layer.spec_index() as int]@
    }

    /// Cells with a piece in layer `layer`.
    pub open spec fn layer_set(&self, layer: Layer) -> Set<int> {
        self.piece_set(Piece::Rock, layer) + self.piece_set(Piece::Paper, layer) + self.piece_set(
            Piece::Scissors,
            layer,
        ) + self.piece_set(Piece::Wise, layer)
    }

    /// Cells where a piece of kind `piece` is the topmost piece: on top of another
    /// piece, or the only piece of a cell of the board.
    pub open spec fn visible_set(&self, piece: Piece) -> Set<int> {
        self.piece_set(piece, Layer::Upper) + self.piece_set(piece, Layer::Lower).intersect(
            Bitmasks::All.cells().difference(self.layer_set(Layer::Upper)),
        )
    }

    /// The side that occupies cell `i`.
    pub open spec fn side_at(&self, i: int) -> Option<Side> {
        if self.side_set(Side::White).contains(i) {
            Some(Side::White)
        } else if self.side_set(Side::Black).contains(i) {
            Some(Side::Black)
        } else {
            None
        }
    }

    /// The kind of the piece in layer `layer` of cell `i`.
    pub open spec fn piece_at(&self, layer: Layer, i: int) -> Option<Piece> {
        if self.piece_set(Piece::Rock, layer).contains(i) {
            Some(Piece::Rock)
        } else if self.piece_set(Piece::Paper, layer).contains(i) {
            Some(Piece::Paper)
        } else if self.piece_set(Piece::Scissors, layer).contains(i) {
            Some(Piece::Scissors)
        } else if self.piece_set(Piece::Wise, layer).contains(i) {
            Some(Piece::Wise)
        } else {
            None
        }
    }

    /// What cell `i` holds.
    pub open spec fn cell(&self, i: int) -> Cell {
        match (self.side_at(i), self.piece_at(Layer::Lower, i), self.piece_at(Layer::Upper, i)) {
            (Some(s), Some(b), None) => Cell::Single(s, b),
            (Some(s), Some(b), Some(t)) => Cell::Stack(s, b, t),
            _ => Cell::Empty,
        }
    }

    /// Every set of the position lies on the board.
    pub open spec fn on_board(&self) -> bool {
        &&& forall|s: int| 0 <= s < 2 ==> (#[trigger] self.sides[s]).wf()
        &&& forall|p: int, l: int| 0 <= p < 4 && 0 <= l < 2 ==> (#[trigger] self.pieces[p][l]).wf()
    }

    /// The sets of the position describe a board: every set lies on the board; no
    /// cell belongs to both sides; within a layer no cell holds two kinds; every
    /// piece on top has a piece below it; a wise piece sits on top of a wise piece
    /// only; and the cells that the sides occupy are the cells with a bottom piece.
    pub open spec fn wf(&self) -> bool {
        &&& self.on_board()
        &&& self.side_set(Side::White).disjoint(self.side_set(Side::Black))
        &&& forall|p: Piece, q: Piece, l: Layer|
            p != q ==> (#[trigger] self.piece_set(p, l)).disjoint(#[trigger] self.piece_set(q, l))
        &&& self.layer_set(Layer::Upper).subset_of(self.layer_set(Layer::Lower))
        &&& self.piece_set(Piece::Wise, Layer::Upper).disjoint(
            self.piece_set(Piece::Rock, Layer::Lower) + self.piece_set(Piece::Paper, Layer::Lower)
                + self.piece_set(Piece::Scissors, Layer::Lower),
        )
        &&& self.side_set(Side::White) + self.side_set(Side::Black) == self.layer_set(Layer::Lower)
    }

    /// The empty board before the first move of the first player.
    #[must_use]
    pub fn empty() -> (pos: Self)
        ensures
            pos.wf(),
            forall|i: int| 0 <= i < 45 ==> pos@.cells[i] == Cell::Empty,
            pos.turn == Side::White,
            pos.halfmoves == 0,
            pos.fullmoves == 1,
    {
        let pos = Self {
            sides: [Bitboard::empty(), Bitboard::empty()],
            pieces: [
                [Bitboard::empty(), Bitboard::empty()],
                [Bitboard::empty(), Bitboard::empty()],
                [Bitboard::empty(), Bitboard::empty()],
                [Bitboard::empty(), Bitboard::empty()],
            ],
            turn: Side::White,
            halfmoves: 0,
            fullmoves: 1,
        };
        proof {
            assert(pos.side_set(Side::White) + pos.side_set(Side::Black) =~= pos.layer_set(
                Layer::Lower,
            ));
        }
        pos
    }

    /// Cells of the side to move.
    #[must_use]
    pub fn get_us(&self) -> (bb: Bitboard)
        ensures
            bb == self.sides[self.turn.spec_index() as int],
            bb@ == self.side_set(self.turn),
            self.on_board() ==> bb.wf(),
            self.wf() ==> bb@ == self@.side_cells(self.turn),
    {
        proof {
            if self.wf() {
                self.lemma_cells();
                assert(self.side_set(self.turn) =~= self@.side_cells(self.turn));
            }
        }
        self.sides[self.turn.index()]
    }

    /// Cells of the side that is not to move.
    #[must_use]
    pub fn get_them(&self) -> (bb: Bitboard)
        ensures
            bb == self.sides[self.turn.other().spec_index() as int],
            bb@ == self.side_set(self.turn.other()),
            self.on_board() ==> bb.wf(),
            self.wf() ==> bb@ == self@.side_cells(self.turn.other()),
    {
        proof {
            if self.wf() {
                self.lemma_cells();
                assert(self.side_set(self.turn.other()) =~= self@.side_cells(self.turn.other()));
            }
        }
        self.sides[self.turn.not().index()]
    }

    /// Cells of the first player.
    #[must_use]
    pub fn get_white(&self) -> (bb: Bitboard)
        ensures
            bb == self.sides[0],
            bb@ == self.side_set(Side::White),
            self.on_board() ==> bb.wf(),
            self.wf() ==> bb@ == self@.side_cells(Side::White),
    {
        proof {
            if self.wf() {
                self.lemma_cells();
                assert(self.side_set(Side::White) =~= self@.side_cells(Side::White));
            }
        }
        self.sides[Side::White.index()]
    }

    /// Cells of the second player.
    #[must_use]
    pub fn get_black(&self) -> (bb: Bitboard)
        ensures
            bb == self.sides[1],
            bb@ == self.side_set(Side::Black),
            self.on_board() ==> bb.wf(),
            self.wf() ==> bb@ == self@.side_cells(Side::Black),
    {
        proof {
            if self.wf() {
                self.lemma_cells();
                assert(self.side_set(Side::Black) =~= self@.side_cells(Side::Black));
            }
        }
        self.sides[Side::Black.index()]
    }

    /// Cells with a rock in either layer.
    #[must_use]
    pub fn get_rock(&self) -> (bb: Bitboard)
        ensures
            bb@ == self.piece_set(Piece::Rock, Layer::Lower) + self.piece_set(
                Piece::Rock,
                Layer::Upper,
            ),
            self.on_board() ==> bb.wf(),
            self.wf() ==> bb@ == self@.kind_cells(Piece::Rock),
    {
        let bb = self.pieces[Piece::Rock.index()][Layer::Lower.index()]
            | self.pieces[Piece::Rock.index()][Layer::Upper.index()];
        proof {
            if self.wf() {
                self.lemma_cells();
                assert(bb@ =~= self@.kind_cells(Piece::Rock));
            }
        }
        bb
    }

    /// Cells with a paper in either layer.
    #[must_use]
    pub fn get_paper(&self) -> (bb: Bitboard)
        ensures
            bb@ == self.piece_set(Piece::Paper, Layer::Lower) + self.piece_set(
                Piece::Paper,
                Layer::Upper,
            ),
            self.on_board() ==> bb.wf(),
            self.wf() ==> bb@ == self@.kind_cells(Piece::Paper),
    {
        let bb = self.pieces[Piece::Paper.index()][Layer::Lower.index()]
            | self.pieces[Piece::Paper.index()][Layer::Upper.index()];
        proof {
            if self.wf() {
                self.lemma_cells();
                assert(bb@ =~= self@.kind_cells(Piece::Paper));
            }
        }
        bb
    }

    /// Cells with scissors in either layer.
    #[must_use]
    pub fn get_scissors(&self) -> (bb: Bitboard)
        ensures
            bb@ == self.piece_set(Piece::Scissors, Layer::Lower) + self.piece_set(
                Piece::Scissors,
                Layer::Upper,
            ),
            self.on_board() ==> bb.wf(),
            self.wf() ==> bb@ == self@.kind_cells(Piece::Scissors),
    {
        let bb = self.pieces[Piece::Scissors.index()][Layer::Lower.index()]
            | self.pieces[Piece::Scissors.index()][Layer::Upper.index()];
        proof {
            if self.wf() {
                self.lemma_cells();
                assert(bb@ =~= self@.kind_cells(Piece::Scissors));
            }
        }
        bb
    }

    /// Cells with a capturing piece in either layer.
    pub open spec fn rps_set(&self) -> Set<int> {
        self.piece_set(Piece::Rock, Layer::Lower) + self.piece_set(Piece::Rock, Layer::Upper)
            + self.piece_set(Piece::Paper, Layer::Lower) + self.piece_set(
            Piece::Paper,
            Layer::Upper,
        ) + self.piece_set(Piece::Scissors, Layer::Lower) + self.piece_set(
            Piece::Scissors,
            Layer::Upper,
        )
    }

    /// Cells with a capturing piece in either layer.
    #[must_use]
    pub fn get_rps(&self) -> (bb: Bitboard)
        ensures
            bb@ == self.rps_set(),
            self.on_board() ==> bb.wf(),
    {
        let bb = self.get_rock() | self.get_paper() | self.get_scissors();
        assert(bb@ =~= self.rps_set());
        bb
    }

    /// Cells with a wise piece in either layer.
    #[must_use]
    pub fn get_wise(&self) -> (bb: Bitboard)
        ensures
            bb@ == self.piece_set(Piece::Wise, Layer::Lower) + self.piece_set(
                Piece::Wise,
                Layer::Upper,
            ),
            self.on_board() ==> bb.wf(),
            self.wf() ==> bb@ == self@.kind_cells(Piece::Wise),
    {
        let bb = self.pieces[Piece::Wise.index()][Layer::Lower.index()]
            | self.pieces[Piece::Wise.index()][Layer::Upper.index()];
        proof {
            if self.wf() {
                self.lemma_cells();
                assert(bb@ =~= self@.kind_cells(Piece::Wise));
            }
        }
        bb
    }

    /// Cells with a bottom piece: every occupied cell.
    #[must_use]
    pub fn get_lower(&self) -> (bb: Bitboard)
        ensures
            bb@ == self.layer_set(Layer::Lower),
            self.on_board() ==> bb.wf(),
    {
        self.pieces[Piece::Rock.index()][Layer::Lower.index()]
            | self.pieces[Piece::Paper.index()][Layer::Lower.index()]
            | self.pieces[Piece::Scissors.index()][Layer::Lower.index()]
            | self.pieces[Piece::Wise.index()][Layer::Lower.index()]
    }

    /// Cells with a piece on top of another: every stack.
    #[must_use]
    pub fn get_upper(&self) -> (bb: Bitboard)
        ensures
            bb@ == self.layer_set(Layer::Upper),
            self.on_board() ==> bb.wf(),
    {
        self.pieces[Piece::Rock.index()][Layer::Upper.index()]
            | self.pieces[Piece::Paper.index()][Layer::Upper.index()]
            | self.pieces[Piece::Scissors.index()][Layer::Upper.index()]
            | self.pieces[Piece::Wise.index()][Layer::Upper.index()]
    }

    /// Cells in exactly one of the two layers; in a well-formed position, the
    /// cells with exactly one piece.
    pub open spec fn short_set(&self) -> Set<int> {
        self.layer_set(Layer::Lower).difference(self.layer_set(Layer::Upper)) + self.layer_set(
            Layer::Upper,
        ).difference(self.layer_set(Layer::Lower))
    }

    /// Cells in exactly one of the two layers; in a well-formed position, the
    /// cells with exactly one piece.
    #[must_use]
    pub fn get_short(&self) -> (bb: Bitboard)
        ensures
            bb@ == self.short_set(),
            self.on_board() ==> bb.wf(),
            self.wf() ==> bb@ == self@.single_cells(),
    {
        let bb = self.get_lower() ^ self.get_upper();
        proof {
            if self.wf() {
                self.lemma_cells();
                assert(bb@ =~= self@.single_cells());
            }
        }
        bb
    }

    /// Cells with two pieces.
    #[must_use]
    pub fn get_tall(&self) -> (bb: Bitboard)
        ensures
            bb@ == self.layer_set(Layer::Upper),
            self.on_board() ==> bb.wf(),
            self.wf() ==> bb@ == self@.stack_cells(),
    {
        let bb = self.get_upper();
        proof {
            if self.wf() {
                self.lemma_cells();
                assert(bb@ =~= self@.stack_cells());
            }
        }
        bb
    }

    /// Cells where a piece of kind `piece` is the topmost piece.
    #[must_use]
    pub fn get_visible(&self, piece: Piece) -> (bb: Bitboard)
        ensures
            bb@ == self.visible_set(piece),
            self.on_board() ==> bb.wf(),
            self.wf() ==> bb@ == self@.top_cells(piece),
    {
        let open = self.get_upper().not();
        let bb = self.pieces[piece.index()][Layer::Upper.index()] | (
        self.pieces[piece.index()][Layer::Lower.index()] & open);
        proof {
            if self.on_board() {
                assert(self.pieces[piece.spec_index() as int][0].wf());
                assert(self.pieces[piece.spec_index() as int][1].wf());
            }
            if self.wf() {
                self.lemma_cells();
                assert(bb@ =~= self@.top_cells(piece));
            }
        }
        bb
    }

    /// Cells that either side occupies.
    #[must_use]
    pub fn get_occupied(&self) -> (bb: Bitboard)
        ensures
            bb@ == self.side_set(Side::White) + self.side_set(Side::Black),
            self.on_board() ==> bb.wf(),
            self.wf() ==> bb@ == self@.side_cells(Side::White) + self@.side_cells(Side::Black),
    {
        let bb = self.sides[Side::White.index()] | self.sides[Side::Black.index()];
        proof {
            if self.wf() {
                self.lemma_cells();
                assert(bb@ =~= self@.side_cells(Side::White) + self@.side_cells(Side::Black));
            }
        }
        bb
    }

    /// The kind of the piece in layer `layer` of the cell `sq`.
    #[must_use]
    pub fn get_piece_on(&self, layer: Layer, sq: Square) -> (piece: Option<Piece>)
        requires
            sq.0 < 64,
        ensures
            piece == self.piece_at(layer, sq.0 as int),
            self.wf() && sq.wf() ==> piece == match layer {
                Layer::Lower => self@.cells[sq.0 as int].bottom(),
                Layer::Upper => match self@.cells[sq.0 as int] {
                    Cell::Stack(_, _, t) => Some(t),
                    _ => None,
                },
            },
    {
        proof {
            if self.wf() && sq.wf() {
                self.lemma_cells();
            }
        }
        if self.pieces[Piece::Rock.index()][layer.index()].is_set(&sq) {
            Some(Piece::Rock)
        } else if self.pieces[Piece::Paper.index()][layer.index()].is_set(&sq) {
            Some(Piece::Paper)
        } else if self.pieces[Piece::Scissors.index()][layer.index()].is_set(&sq) {
            Some(Piece::Scissors)
        } else if self.pieces[Piece::Wise.index()][layer.index()].is_set(&sq) {
            Some(Piece::Wise)
        } else {
            None
        }
    }

    /// The side that occupies the cell `sq`.
    #[must_use]
    pub fn get_side_on(&self, sq: Square) -> (side: Option<Side>)
        requires
            sq.0 < 64,
        ensures
            side == self.side_at(sq.0 as int),
            self.wf() && sq.wf() ==> side == self@.cells[sq.0 as int].side(),
    {
        proof {
            if self.wf() && sq.wf() {
                self.lemma_cells();
            }
        }
        if self.sides[Side::White.index()].is_set(&sq) {
            Some(Side::White)
        } else if self.sides[Side::Black.index()].is_set(&sq) {
            Some(Side::Black)
        } else {
            None
        }
    }

    /// In a well-formed position the sets and the cells say the same: a cell is in
    /// a side's set exactly when it holds pieces of that side, and in the set of
    /// a kind and layer exactly when it holds that kind in that layer.
    pub proof fn lemma_cells(&self)
        requires
            self.wf(),
        ensures
            self@.wf(),
            forall|i: int, s: Side|
                0 <= i < 45 ==> (#[trigger] self.side_set(s).contains(i) <==> self@.cells[i].side()
                    == Some(s)),
            forall|i: int, p: Piece|
                0 <= i < 45 ==> (#[trigger] self.piece_set(p, Layer::Lower).contains(i)
                    <==> self@.cells[i].bottom() == Some(p)),
            forall|i: int, p: Piece|
                0 <= i < 45 ==> (#[trigger] self.piece_set(p, Layer::Upper).contains(i)
                    <==> self@.cells[i] is Stack && self@.cells[i].top() == Some(p)),
            forall|i: int, s: Side| !(0 <= i < 45) ==> !#[trigger] self.side_set(s).contains(i),
            forall|i: int, p: Piece, l: Layer|
                !(0 <= i < 45) ==> !#[trigger] self.piece_set(p, l).contains(i),
    {
        assert forall|i: int, s: Side| !(0 <= i < 45) implies !#[trigger] self.side_set(
            s,
        ).contains(i) by {
            assert(self.sides[s.spec_index() as int].wf());
        }
        assert forall|i: int, p: Piece, l: Layer| !(0 <= i < 45) implies !#[trigger] self.piece_set(
            p,
            l,
        ).contains(i) by {
            assert(self.pieces[p.spec_index() as int][l.spec_index() as int].wf());
        }
        assert forall|i: int| 0 <= i < 45 implies ({
            &&& (#[trigger] self@.cells[i]).wf()
            &&& forall|s: Side| self.side_set(s).contains(i) <==> self@.cells[i].side() == Some(s)
            &&& forall|p: Piece|
                self.piece_set(p, Layer::Lower).contains(i) <==> self@.cells[i].bottom() == Some(
                    p,
                )
            &&& forall|p: Piece|
                self.piece_set(p, Layer::Upper).contains(i) <==> self@.cells[i] is Stack
                    && self@.cells[i].top() == Some(p)
        }) by {
            self.lemma_cell(i);
        }
    }

    /// The statement of `lemma_cells` for one cell.
    pub proof fn lemma_cell(&self, i: int)
        requires
            self.wf(),
            0 <= i < 45,
        ensures
            self.cell(i).wf(),
            forall|s: Side| self.side_set(s).contains(i) <==> self.cell(i).side() == Some(s),
            forall|p: Piece|
                self.piece_set(p, Layer::Lower).contains(i) <==> self.cell(i).bottom() == Some(p),
            forall|p: Piece|
                self.piece_set(p, Layer::Upper).contains(i) <==> self.cell(i) is Stack
                    && self.cell(i).top() == Some(p),
    {
        let occupied = self.side_set(Side::White) + self.side_set(Side::Black);
        assert(occupied.contains(i) == self.layer_set(Layer::Lower).contains(i));
        assert(self.layer_set(Layer::Upper).contains(i) ==> self.layer_set(Layer::Lower).contains(
            i,
        ));
        assert(self.piece_set(Piece::Rock, Layer::Lower).disjoint(
            self.piece_set(Piece::Paper, Layer::Lower),
        ));
        assert(self.piece_set(Piece::Rock, Layer::Lower).disjoint(
            self.piece_set(Piece::Scissors, Layer::Lower),
        ));
        assert(self.piece_set(Piece::Rock, Layer::Lower).disjoint(
            self.piece_set(Piece::Wise, Layer::Lower),
        ));
        assert(self.piece_set(Piece::Paper, Layer::Lower).disjoint(
            self.piece_set(Piece::Scissors, Layer::Lower),
        ));
        assert(self.piece_set(Piece::Paper, Layer::Lower).disjoint(
            self.piece_set(Piece::Wise, Layer::Lower),
        ));
        assert(self.piece_set(Piece::Scissors, Layer::Lower).disjoint(
            self.piece_set(Piece::Wise, Layer::Lower),
        ));
        assert(self.piece_set(Piece::Rock, Layer::Upper).disjoint(
            self.piece_set(Piece::Paper, Layer::Upper),
        ));
        assert(self.piece_set(Piece::Rock, Layer::Upper).disjoint(
            self.piece_set(Piece::Scissors, Layer::Upper),
        ));
        assert(self.piece_set(Piece::Rock, Layer::Upper).disjoint(
            self.piece_set(Piece::Wise, Layer::Upper),
        ));
        assert(self.piece_set(Piece::Paper, Layer::Upper).disjoint(
            self.piece_set(Piece::Scissors, Layer::Upper),
        ));
        assert(self.piece_set(Piece::Paper, Layer::Upper).disjoint(
            self.piece_set(Piece::Wise, Layer::Upper),
        ));
        assert(self.piece_set(Piece::Scissors, Layer::Upper).disjoint(
            self.piece_set(Piece::Wise, Layer::Upper),
        ));
    }
}

impl Position {
    /// Two well-formed positions that describe the same board are the same.
    pub proof fn lemma_view_injective(&self, other: &Position)
        requires
            self.wf(),
            other.wf(),
            self@ == other@,
        ensures
            *self == *other,
    {
        self.lemma_cells();
        other.lemma_cells();
        assert forall|i: int| 0 <= i < 45 implies self.cell(i) == other.cell(i) by {
            assert(self@.cells[i] == other@.cells[i]);
        }
        assert forall|s: Side| #[trigger]
            self.sides[s.spec_index() as int] == other.sides[s.spec_index() as int] by {
            assert(self.side_set(s) =~= other.side_set(s));
            crate::bitboard::lemma_view_injective(
                self.sides[s.spec_index() as int],
                other.sides[s.spec_index() as int],
            );
        }
        assert forall|p: Piece, l: Layer| #[trigger]
            self.pieces[p.spec_index() as int][l.spec_index() as int]
                == other.pieces[p.spec_index() as int][l.spec_index() as int] by {
            assert(self.piece_set(p, l) =~= other.piece_set(p, l));
            crate::bitboard::lemma_view_injective(
                self.pieces[p.spec_index() as int][l.spec_index() as int],
                other.pieces[p.spec_index() as int][l.spec_index() as int],
            );
        }
        assert(self.sides[0] == other.sides[0]) by {
            assert(Side::White.spec_index() == 0);
        }
        assert(self.sides[1] == other.sides[1]) by {
            assert(Side::Black.spec_index() == 1);
        }
        assert(self.sides =~= other.sides);
        assert forall|p: int| 0 <= p < 4 implies self.pieces[p] == other.pieces[p] by {
            let kind = if p == 0 {
                Piece::Rock
            } else if p == 1 {
                Piece::Paper
            } else if p == 2 {
                Piece::Scissors
            } else {
                Piece::Wise
            };
            assert(kind.spec_index() == p);
            assert(self.pieces[p][0] == other.pieces[p][0]) by {
                assert(Layer::Lower.spec_index() == 0);
            }
            assert(self.pieces[p][1] == other.pieces[p][1]) by {
                assert(Layer::Upper.spec_index() == 1);
            }
            assert(self.pieces[p] =~= other.pieces[p]);
        }
        assert(self.pieces =~= other.pieces);
    }
}

impl Position {
    /// A position with the sets of a well-formed position is well formed, and
    /// has the same cells.
    pub proof fn lemma_same_sets(&self, other: &Position)
        requires
            other.wf(),
            self.sides == other.sides,
            self.pieces == other.pieces,
        ensures
            self.wf(),
            self@.cells == other@.cells,
    {
        assert forall|s: Side| #[trigger] self.side_set(s) == other.side_set(s) by {}
        assert forall|p: Piece, l: Layer| #[trigger]
            self.piece_set(p, l) == other.piece_set(p, l) by {}
        assert(self.layer_set(Layer::Lower) == other.layer_set(Layer::Lower));
        assert(self.layer_set(Layer::Upper) == other.layer_set(Layer::Upper));
        assert forall|i: int| 0 <= i < 45 implies self.cell(i) == other.cell(i) by {}
        assert(self@.cells =~= other@.cells);
    }
}

impl Position {
    /// Whether the sets hold cell `i` as `cell` says.
    pub open spec fn holds(&self, i: int, cell: Cell) -> bool {
        &&& forall|s: Side| #[trigger] self.side_set(s).contains(i) == (cell.side() == Some(s))
        &&& forall|p: Piece| #[trigger]
            self.piece_set(p, Layer::Lower).contains(i) == (cell.bottom() == Some(p))
        &&& forall|p: Piece| #[trigger]
            self.piece_set(p, Layer::Upper).contains(i) == (cell is Stack && cell.top() == Some(
                p,
            ))
    }

    /// Whether the sets hold cell `i` as those of `other` do.
    pub open spec fn same_at(&self, other: &Position, i: int) -> bool {
        &&& forall|s: Side| #[trigger] self.side_set(s).contains(i) == other.side_set(s).contains(i)
        &&& forall|p: Piece, l: Layer| #[trigger]
            self.piece_set(p, l).contains(i) == other.piece_set(p, l).contains(i)
    }

    /// A cell of a well-formed position is held as the board says.
    pub proof fn lemma_holds(&self, i: int)
        requires
            self.wf(),
            0 <= i < 45,
        ensures
            self.holds(i, self.cell(i)),
    {
        self.lemma_cell(i);
    }

    /// What the sets hold at cell `i`, the board has there.
    pub proof fn lemma_cell_held(&self, i: int, cell: Cell)
        requires
            self.holds(i, cell),
        ensures
            self.cell(i) == cell,
    {
        assert(self.side_set(Side::White).contains(i) == (cell.side() == Some(Side::White)));
        assert(self.side_set(Side::Black).contains(i) == (cell.side() == Some(Side::Black)));
        assert(self.piece_set(Piece::Rock, Layer::Lower).contains(i) == (cell.bottom() == Some(
            Piece::Rock,
        )));
        assert(self.piece_set(Piece::Paper, Layer::Lower).contains(i) == (cell.bottom() == Some(
            Piece::Paper,
        )));
        assert(self.piece_set(Piece::Scissors, Layer::Lower).contains(i) == (cell.bottom() == Some(
            Piece::Scissors,
        )));
        assert(self.piece_set(Piece::Wise, Layer::Lower).contains(i) == (cell.bottom() == Some(
            Piece::Wise,
        )));
        assert(self.piece_set(Piece::Rock, Layer::Upper).contains(i) == (cell is Stack
            && cell.top() == Some(Piece::Rock)));
        assert(self.piece_set(Piece::Paper, Layer::Upper).contains(i) == (cell is Stack
            && cell.top() == Some(Piece::Paper)));
        assert(self.piece_set(Piece::Scissors, Layer::Upper).contains(i) == (cell is Stack
            && cell.top() == Some(Piece::Scissors)));
        assert(self.piece_set(Piece::Wise, Layer::Upper).contains(i) == (cell is Stack
            && cell.top() == Some(Piece::Wise)));
    }

    /// Sets that lie on the board and hold every cell as a well-formed cell are
    /// the sets of a well-formed position.
    #[verifier::spinoff_prover]
    #[verifier::rlimit(50)]
    pub proof fn lemma_wf_by_cells(&self, cells: Seq<Cell>)
        requires
            self.on_board(),
            cells.len() == 45,
            forall|i: int| 0 <= i < 45 ==> (#[trigger] cells[i]).wf() && self.holds(i, cells[i]),
        ensures
            self.wf(),
            self@.cells == cells,
    {
        assert forall|i: int, s: Side| !(0 <= i < 45) implies !#[trigger] self.side_set(
            s,
        ).contains(i) by {
            assert(self.sides[s.spec_index() as int].wf());
        }
        assert forall|i: int, p: Piece, l: Layer| !(0 <= i < 45) implies !#[trigger] self.piece_set(
            p,
            l,
        ).contains(i) by {
            assert(self.pieces[p.spec_index() as int][l.spec_index() as int].wf());
        }
        assert forall|i: int|
            !(self.side_set(Side::White).contains(i) && self.side_set(Side::Black).contains(
                i,
            )) by {
            if 0 <= i < 45 {
                assert(self.holds(i, cells[i]));
            }
        }
        assert forall|p: Piece, q: Piece, l: Layer| p != q implies (#[trigger] self.piece_set(
            p,
            l,
        )).disjoint(#[trigger] self.piece_set(q, l)) by {
            assert forall|i: int|
                !(self.piece_set(p, l).contains(i) && self.piece_set(q, l).contains(i)) by {
                if 0 <= i < 45 {
                    assert(self.holds(i, cells[i]));
                }
            }
        }
        assert forall|i: int| self.layer_set(Layer::Upper).contains(i) implies self.layer_set(
            Layer::Lower,
        ).contains(i) by {
            if 0 <= i < 45 {
                assert(self.holds(i, cells[i]));
                let b = cells[i].bottom().unwrap();
                assert(self.piece_set(b, Layer::Lower).contains(i));
            }
        }
        assert forall|i: int|
            !(self.piece_set(Piece::Wise, Layer::Upper).contains(i) && (self.piece_set(
                Piece::Rock,
                Layer::Lower,
            ) + self.piece_set(Piece::Paper, Layer::Lower) + self.piece_set(
                Piece::Scissors,
                Layer::Lower,
            )).contains(i)) by {
            if 0 <= i < 45 {
                assert(self.holds(i, cells[i]));
                assert(cells[i].wf());
            }
        }
        assert forall|i: int|
            (self.side_set(Side::White) + self.side_set(Side::Black)).contains(i)
                == self.layer_set(Layer::Lower).contains(i) by {
            if 0 <= i < 45 {
                assert(self.holds(i, cells[i]));
                if cells[i].bottom() is Some {
                    let b = cells[i].bottom().unwrap();
                    assert(self.piece_set(b, Layer::Lower).contains(i));
                }
            }
        }
        assert(self.side_set(Side::White) + self.side_set(Side::Black) =~= self.layer_set(
            Layer::Lower,
        ));
        assert forall|i: int| 0 <= i < 45 implies self.cell(i) == cells[i] by {
            self.lemma_cell_held(i, cells[i]);
        }
        assert(self@.cells =~= cells);
    }

    /// Where the sets of a position hold one cell as `cell` says and every
    /// other as those of a well-formed position do, the position is well formed
    /// and differs from the other in that cell alone.
    pub proof fn lemma_cell_changed(&self, before: &Position, c: int, cell: Cell)
        requires
            before.wf(),
            0 <= c < 45,
            cell.wf(),
            self.on_board(),
            self.holds(c, cell),
            forall|i: int| 0 <= i < 45 && i != c ==> #[trigger] self.same_at(before, i),
        ensures
            self.wf(),
            self@.cells == before@.cells.update(c, cell),
    {
        let cells = before@.cells.update(c, cell);
        before.lemma_cells();
        assert forall|i: int| 0 <= i < 45 implies (#[trigger] cells[i]).wf() && self.holds(
            i,
            cells[i],
        ) by {
            if i != c {
                before.lemma_holds(i);
                assert(self.same_at(before, i));
                assert(before@.cells[i].wf());
            }
        }
        self.lemma_wf_by_cells(cells);
    }
}

impl Default for Position {
    /// The empty board with the first player to move and both counters at zero.
    fn default() -> (pos: Self)
        ensures
            pos.wf(),
            forall|i: int| 0 <= i < 45 ==> pos@.cells[i] == Cell::Empty,
            pos.turn == Side::White,
            pos.halfmoves == 0,
            pos.fullmoves == 0,
    {
        let mut pos = Self::empty();
        let ghost empty = pos;
        pos.fullmoves = 0;
        proof {
            pos.lemma_same_sets(&empty);
        }
        pos
    }
}

} // verus!
