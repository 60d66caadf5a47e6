use crate::bitboard::Bitboard;
use crate::layer::Layer;
use crate::mv::Mv;
use crate::position::{Board, Cell, Piece, Position};
use crate::side::Side;
use crate::square::Square;
use core::ops::Not;
use vstd::prelude::*;

verus! {

impl Position {
    /// Takes every piece off the cell `sq`.
    pub fn clear(&mut self, sq: Square)
        requires
            old(self).wf(),
            sq.wf(),
        ensures
            final(self).wf(),
            final(self)@.cells == old(self)@.cells.update(sq.0 as int, Cell::Empty),
            final(self).turn == old(self).turn,
            final(self).halfmoves == old(self).halfmoves,
            final(self).fullmoves == old(self).fullmoves,
    {
        let keep = Bitboard::from_square(&sq).not();
        let sides = [self.sides[0] & keep, self.sides[1] & keep];
        let pieces = [
            [self.pieces[0][0] & keep, self.pieces[0][1] & keep],
            [self.pieces[1][0] & keep, self.pieces[1][1] & keep],
            [self.pieces[2][0] & keep, self.pieces[2][1] & keep],
            [self.pieces[3][0] & keep, self.pieces[3][1] & keep],
        ];
        let ghost before = *self;
        self.sides = sides;
        self.pieces = pieces;
        proof {
            let c = sq.0 as int;
            assert(self.on_board()) by {
                assert(before.sides[0].wf() && before.sides[1].wf());
                assert(before.pieces[0][0].wf() && before.pieces[0][1].wf());
                assert(before.pieces[1][0].wf() && before.pieces[1][1].wf());
                assert(before.pieces[2][0].wf() && before.pieces[2][1].wf());
                assert(before.pieces[3][0].wf() && before.pieces[3][1].wf());
            }
            assert forall|s: Side| #[trigger]
                self.side_set(s) == before.side_set(s).intersect(keep@) by {}
            assert forall|p: Piece, l: Layer| #[trigger]
                self.piece_set(p, l) == before.piece_set(p, l).intersect(keep@) by {}
            assert(self.holds(c, Cell::Empty));
            assert forall|i: int| 0 <= i < 45 && i != c implies #[trigger] self.same_at(
                &before,
                i,
            ) by {}
            self.lemma_cell_changed(&before, c, Cell::Empty);
        }
    }

    /// Puts a single piece on the empty cell `sq`.
    pub fn place(&mut self, sq: Square, side: Side, piece: Piece)
        requires
            old(self).wf(),
            sq.wf(),
            old(self)@.cells[sq.0 as int] == Cell::Empty,
        ensures
            final(self).wf(),
            final(self)@.cells == old(self)@.cells.update(sq.0 as int, Cell::Single(side, piece)),
            final(self).turn == old(self).turn,
            final(self).halfmoves == old(self).halfmoves,
            final(self).fullmoves == old(self).fullmoves,
    {
        let bb = Bitboard::from_square(&sq);
        let none = Bitboard::empty();
        let white = match side {
            Side::White => bb,
            Side::Black => none,
        };
        let black = match side {
            Side::White => none,
            Side::Black => bb,
        };
        let rock = match piece {
            Piece::Rock => bb,
            _ => none,
        };
        let paper = match piece {
            Piece::Paper => bb,
            _ => none,
        };
        let scissors = match piece {
            Piece::Scissors => bb,
            _ => none,
        };
        let wise = match piece {
            Piece::Wise => bb,
            _ => none,
        };
        let sides = [self.sides[0] | white, self.sides[1] | black];
        let pieces = [
            [self.pieces[0][0] | rock, self.pieces[0][1]],
            [self.pieces[1][0] | paper, self.pieces[1][1]],
            [self.pieces[2][0] | scissors, self.pieces[2][1]],
            [self.pieces[3][0] | wise, self.pieces[3][1]],
        ];
        let ghost before = *self;
        self.sides = sides;
        self.pieces = pieces;
        proof {
            let c = sq.0 as int;
            before.lemma_holds(c);
            assert(self.on_board()) by {
                assert(before.sides[0].wf() && before.sides[1].wf());
                assert(before.pieces[0][0].wf() && before.pieces[0][1].wf());
                assert(before.pieces[1][0].wf() && before.pieces[1][1].wf());
                assert(before.pieces[2][0].wf() && before.pieces[2][1].wf());
                assert(before.pieces[3][0].wf() && before.pieces[3][1].wf());
            }
            assert forall|s: Side| #[trigger]
                self.side_set(s) == if s == side {
                    before.side_set(s) + bb@
                } else {
                    before.side_set(s) + none@
                } by {}
            assert forall|p: Piece, l: Layer| #[trigger]
                self.piece_set(p, l) == if l == Layer::Upper {
                    before.piece_set(p, l)
                } else if p == piece {
                    before.piece_set(p, l) + bb@
                } else {
                    before.piece_set(p, l) + none@
                } by {}
            assert(self.holds(c, Cell::Single(side, piece)));
            assert forall|i: int| 0 <= i < 45 && i != c implies #[trigger] self.same_at(
                &before,
                i,
            ) by {}
            self.lemma_cell_changed(&before, c, Cell::Single(side, piece));
        }
    }

    /// Puts a piece on top of the single piece on the cell `sq`.
    pub fn stack_on(&mut self, sq: Square, piece: Piece)
        requires
            old(self).wf(),
            sq.wf(),
            old(self)@.cells[sq.0 as int] matches Cell::Single(_, bottom) && piece.may_top(bottom),
        ensures
            final(self).wf(),
            old(self)@.cells[sq.0 as int] matches Cell::Single(side, bottom) && final(self)@.cells
                == old(self)@.cells.update(sq.0 as int, Cell::Stack(side, bottom, piece)),
            final(self).turn == old(self).turn,
            final(self).halfmoves == old(self).halfmoves,
            final(self).fullmoves == old(self).fullmoves,
    {
        let bb = Bitboard::from_square(&sq);
        let none = Bitboard::empty();
        let rock = match piece {
            Piece::Rock => bb,
            _ => none,
        };
        let paper = match piece {
            Piece::Paper => bb,
            _ => none,
        };
        let scissors = match piece {
            Piece::Scissors => bb,
            _ => none,
        };
        let wise = match piece {
            Piece::Wise => bb,
            _ => none,
        };
        let pieces = [
            [self.pieces[0][0], self.pieces[0][1] | rock],
            [self.pieces[1][0], self.pieces[1][1] | paper],
            [self.pieces[2][0], self.pieces[2][1] | scissors],
            [self.pieces[3][0], self.pieces[3][1] | wise],
        ];
        let ghost before = *self;
        self.pieces = pieces;
        proof {
            let c = sq.0 as int;
            let side = before@.cells[c]->Single_0;
            let bottom = before@.cells[c]->Single_1;
            before.lemma_holds(c);
            assert(self.on_board()) by {
                assert(before.sides[0].wf() && before.sides[1].wf());
                assert(before.pieces[0][0].wf() && before.pieces[0][1].wf());
                assert(before.pieces[1][0].wf() && before.pieces[1][1].wf());
                assert(before.pieces[2][0].wf() && before.pieces[2][1].wf());
                assert(before.pieces[3][0].wf() && before.pieces[3][1].wf());
            }
            assert forall|s: Side| #[trigger] self.side_set(s) == before.side_set(s) by {}
            assert forall|p: Piece, l: Layer| #[trigger]
                self.piece_set(p, l) == if l == Layer::Lower {
                    before.piece_set(p, l)
                } else if p == piece {
                    before.piece_set(p, l) + bb@
                } else {
                    before.piece_set(p, l) + none@
                } by {}
            assert(self.holds(c, Cell::Stack(side, bottom, piece)));
            assert forall|i: int| 0 <= i < 45 && i != c implies #[trigger] self.same_at(
                &before,
                i,
            ) by {}
            self.lemma_cell_changed(&before, c, Cell::Stack(side, bottom, piece));
        }
    }
}

impl Board {
    /// Whether the cell `sq` holds no piece of the side to move.
    pub open spec fn free_for_mover(self, sq: Square) -> bool {
        self.cells[sq.0 as int].side() != Some(self.turn)
    }

    /// Whether the cell `sq` holds a single piece of the side to move that a
    /// piece of kind `top` may be put on.
    pub open spec fn takes_on_top(self, sq: Square, top: Piece) -> bool {
        self.cells[sq.0 as int] matches Cell::Single(side, bottom) && side == self.turn
            && top.may_top(bottom)
    }

    /// Whether the pieces that `mv` names are there to be moved: its first cell
    /// holds a single piece or a stack of the side to move, as its shape asks; a
    /// cell where pieces are joined holds a single piece of that side, and no
    /// wise piece comes to lie on another kind; a cell where pieces land holds
    /// no piece of that side once the move has left its origin.
    pub open spec fn applicable(self, mv: Mv) -> bool {
        let us = self.turn;
        &&& mv.wf()
        &&& match mv {
            Mv::SoloMove(fr, to) => {
                &&& self.cells[fr.0 as int] matches Cell::Single(side, _) && side == us
                &&& self.free_for_mover(to)
            },
            Mv::SoloStack(fr, to) => {
                &&& fr != to
                &&& self.cells[fr.0 as int] matches Cell::Single(side, piece) && side == us
                    && self.takes_on_top(to, piece)
            },
            Mv::SoloStackMove(fr, sq1, sq2) => {
                &&& fr != sq1
                &&& sq1 != sq2
                &&& self.cells[fr.0 as int] matches Cell::Single(side, piece) && side == us
                    && self.takes_on_top(sq1, piece)
                &&& sq2 == fr || self.free_for_mover(sq2)
            },
            Mv::StackMove(fr, to) => {
                &&& self.cells[fr.0 as int] matches Cell::Stack(side, _, _) && side == us
                &&& self.free_for_mover(to)
            },
            Mv::StackMoveDestack(fr, sq1, sq2) => {
                &&& sq1 != sq2
                &&& self.cells[fr.0 as int] matches Cell::Stack(side, _, top) && side == us && (sq2
                    == fr || self.free_for_mover(sq2) || self.takes_on_top(sq2, top))
                &&& self.free_for_mover(sq1)
            },
            Mv::StackDestack(fr, to) => {
                &&& self.cells[fr.0 as int] matches Cell::Stack(side, _, _) && side == us
                &&& self.free_for_mover(to)
            },
            Mv::StackStack(fr, to) => {
                &&& self.cells[fr.0 as int] matches Cell::Stack(side, _, top) && side == us
                    && self.takes_on_top(to, top)
            },
            Mv::StackStackMove(fr, sq1, sq2) => {
                &&& sq1 != sq2
                &&& self.cells[fr.0 as int] matches Cell::Stack(side, _, top) && side == us
                    && self.takes_on_top(sq1, top)
                &&& self.free_for_mover(sq2)
            },
        }
    }

    /// The cells after `mv`. A piece that lands on a cell replaces what the other
    /// side had there.
    pub open spec fn cells_after(self, mv: Mv) -> Seq<Cell> {
        let us = self.turn;
        let c = self.cells;
        match mv {
            Mv::SoloMove(fr, to) => c.update(fr.0 as int, Cell::Empty).update(
                to.0 as int,
                Cell::Single(us, c[fr.0 as int].top().unwrap()),
            ),
            Mv::SoloStack(fr, to) => c.update(fr.0 as int, Cell::Empty).update(
                to.0 as int,
                Cell::Stack(us, c[to.0 as int].top().unwrap(), c[fr.0 as int].top().unwrap()),
            ),
            Mv::SoloStackMove(fr, sq1, sq2) => c.update(fr.0 as int, Cell::Empty).update(
                sq1.0 as int,
                Cell::Empty,
            ).update(
                sq2.0 as int,
                Cell::Stack(us, c[sq1.0 as int].top().unwrap(), c[fr.0 as int].top().unwrap()),
            ),
            Mv::StackMove(fr, to) => c.update(fr.0 as int, Cell::Empty).update(
                to.0 as int,
                c[fr.0 as int],
            ),
            Mv::StackMoveDestack(fr, sq1, sq2) => {
                let moved = c.update(fr.0 as int, Cell::Empty).update(
                    sq1.0 as int,
                    Cell::Single(us, c[fr.0 as int].bottom().unwrap()),
                );
                let top = c[fr.0 as int].top().unwrap();
                moved.update(
                    sq2.0 as int,
                    match moved[sq2.0 as int] {
                        Cell::Single(side, bottom) if side == us => Cell::Stack(us, bottom, top),
                        _ => Cell::Single(us, top),
                    },
                )
            },
            Mv::StackDestack(fr, to) => c.update(
                fr.0 as int,
                Cell::Single(us, c[fr.0 as int].bottom().unwrap()),
            ).update(to.0 as int, Cell::Single(us, c[fr.0 as int].top().unwrap())),
            Mv::StackStack(fr, to) => c.update(
                fr.0 as int,
                Cell::Single(us, c[fr.0 as int].bottom().unwrap()),
            ).update(
                to.0 as int,
                Cell::Stack(us, c[to.0 as int].top().unwrap(), c[fr.0 as int].top().unwrap()),
            ),
            Mv::StackStackMove(fr, sq1, sq2) => c.update(
                fr.0 as int,
                Cell::Single(us, c[fr.0 as int].bottom().unwrap()),
            ).update(sq1.0 as int, Cell::Empty).update(
                sq2.0 as int,
                Cell::Stack(us, c[sq1.0 as int].top().unwrap(), c[fr.0 as int].top().unwrap()),
            ),
        }
    }

    /// The board after `mv`: the pieces moved, one half move more on the clock,
    /// and the other side to move.
    pub open spec fn apply(self, mv: Mv) -> Board {
        Board {
            cells: self.cells_after(mv),
            turn: self.turn.other(),
            halfmoves: self.halfmoves + 1,
            fullmoves: self.fullmoves,
        }
    }

    /// A move that can be applied to a well-formed board leaves a well-formed board.
    pub proof fn lemma_apply_wf(self, mv: Mv)
        requires
            self.wf(),
            self.applicable(mv),
        ensures
            self.apply(mv).wf(),
    {
        let after = self.cells_after(mv);
        assert forall|i: int| 0 <= i < 45 implies (#[trigger] after[i]).wf() by {
            assert(self.cells[i].wf());
            match mv {
                Mv::SoloMove(fr, to) => {},
                Mv::SoloStack(fr, to) => {},
                Mv::SoloStackMove(fr, sq1, sq2) => {},
                Mv::StackMove(fr, to) => {
                    assert(self.cells[fr.0 as int].wf());
                },
                Mv::StackMoveDestack(fr, sq1, sq2) => {},
                Mv::StackDestack(fr, to) => {},
                Mv::StackStack(fr, to) => {},
                Mv::StackStackMove(fr, sq1, sq2) => {},
            }
        }
    }
}

impl Position {
    fn make_solo_move(&mut self, fr: Square, to: Square)
        requires
            old(self).wf(),
            old(self)@.applicable(Mv::SoloMove(fr, to)),
        ensures
            final(self).wf(),
            final(self)@.cells == old(self)@.cells_after(Mv::SoloMove(fr, to)),
            final(self).turn == old(self).turn,
            final(self).halfmoves == old(self).halfmoves,
            final(self).fullmoves == old(self).fullmoves,
    {
        let us = self.turn;
        proof {
            self.lemma_cells();
        }
        let piece = self.get_piece_on(Layer::Lower, fr).unwrap();

        // Remove captured
        self.clear(to);

        // Remove piece
        self.clear(fr);

        // Add piece
        self.place(to, us, piece);
        proof {
            assert(self@.cells =~= old(self)@.cells_after(Mv::SoloMove(fr, to)));
        }
    }

    fn make_solo_stack(&mut self, fr: Square, to: Square)
        requires
            old(self).wf(),
            old(self)@.applicable(Mv::SoloStack(fr, to)),
        ensures
            final(self).wf(),
            final(self)@.cells == old(self)@.cells_after(Mv::SoloStack(fr, to)),
            final(self).turn == old(self).turn,
            final(self).halfmoves == old(self).halfmoves,
            final(self).fullmoves == old(self).fullmoves,
    {
        let us = self.turn;
        proof {
            self.lemma_cells();
        }
        let piece = self.get_piece_on(Layer::Lower, fr).unwrap();

        // Remove piece
        self.clear(fr);

        // Add piece
        self.stack_on(to, piece);
        proof {
            assert(self@.cells =~= old(self)@.cells_after(Mv::SoloStack(fr, to)));
        }
    }

    fn make_solo_stack_move(&mut self, fr: Square, sq1: Square, sq2: Square)
        requires
            old(self).wf(),
            old(self)@.applicable(Mv::SoloStackMove(fr, sq1, sq2)),
        ensures
            final(self).wf(),
            final(self)@.cells == old(self)@.cells_after(Mv::SoloStackMove(fr, sq1, sq2)),
            final(self).turn == old(self).turn,
            final(self).halfmoves == old(self).halfmoves,
            final(self).fullmoves == old(self).fullmoves,
    {
        let us = self.turn;
        proof {
            self.lemma_cells();
        }
        let piece1 = self.get_piece_on(Layer::Lower, fr).unwrap();
        let piece2 = self.get_piece_on(Layer::Lower, sq1).unwrap();

        // Remove piece1
        self.clear(fr);

        // Remove piece2
        self.clear(sq1);

        // Remove captured
        self.clear(sq2);

        // Add pieces
        self.place(sq2, us, piece2);
        self.stack_on(sq2, piece1);
        proof {
            assert(self@.cells =~= old(self)@.cells_after(Mv::SoloStackMove(fr, sq1, sq2)));
        }
    }

    fn make_stack_move(&mut self, fr: Square, to: Square)
        requires
            old(self).wf(),
            old(self)@.applicable(Mv::StackMove(fr, to)),
        ensures
            final(self).wf(),
            final(self)@.cells == old(self)@.cells_after(Mv::StackMove(fr, to)),
            final(self).turn == old(self).turn,
            final(self).halfmoves == old(self).halfmoves,
            final(self).fullmoves == old(self).fullmoves,
    {
        let us = self.turn;
        proof {
            self.lemma_cells();
        }
        let piece1 = self.get_piece_on(Layer::Lower, fr).unwrap();
        let piece2 = self.get_piece_on(Layer::Upper, fr).unwrap();

        // Remove captured
        self.clear(to);

        // Remove pieces
        self.clear(fr);

        // Add pieces
        self.place(to, us, piece1);
        self.stack_on(to, piece2);
        proof {
            assert(self@.cells =~= old(self)@.cells_after(Mv::StackMove(fr, to)));
        }
    }

    fn make_stack_move_destack(&mut self, fr: Square, sq1: Square, sq2: Square)
        requires
            old(self).wf(),
            old(self)@.applicable(Mv::StackMoveDestack(fr, sq1, sq2)),
        ensures
            final(self).wf(),
            final(self)@.cells == old(self)@.cells_after(Mv::StackMoveDestack(fr, sq1, sq2)),
            final(self).turn == old(self).turn,
            final(self).halfmoves == old(self).halfmoves,
            final(self).fullmoves == old(self).fullmoves,
    {
        let us = self.turn;
        proof {
            self.lemma_cells();
        }
        let piece1 = self.get_piece_on(Layer::Lower, fr).unwrap();
        let piece2 = self.get_piece_on(Layer::Upper, fr).unwrap();

        // Remove pieces
        self.clear(fr);

        // Remove captured
        self.clear(sq1);

        // Add piece
        self.place(sq1, us, piece1);

        // Add piece
        proof {
            self.lemma_cells();
        }
        if self.sides[us.index()].is_set(&sq2) {
            self.stack_on(sq2, piece2);
        } else {
            self.clear(sq2);
            self.place(sq2, us, piece2);
        }
        proof {
            assert(self@.cells =~= old(self)@.cells_after(Mv::StackMoveDestack(fr, sq1, sq2)));
        }
    }

    fn make_stack_destack(&mut self, fr: Square, to: Square)
        requires
            old(self).wf(),
            old(self)@.applicable(Mv::StackDestack(fr, to)),
        ensures
            final(self).wf(),
            final(self)@.cells == old(self)@.cells_after(Mv::StackDestack(fr, to)),
            final(self).turn == old(self).turn,
            final(self).halfmoves == old(self).halfmoves,
            final(self).fullmoves == old(self).fullmoves,
    {
        let us = self.turn;
        proof {
            self.lemma_cells();
        }
        let piece = self.get_piece_on(Layer::Upper, fr).unwrap();
        let bottom = self.get_piece_on(Layer::Lower, fr).unwrap();

        // Remove captured
        self.clear(to);

        // Remove pieces
        self.clear(fr);

        // Add pieces
        self.place(to, us, piece);
        self.place(fr, us, bottom);
        proof {
            assert(self@.cells =~= old(self)@.cells_after(Mv::StackDestack(fr, to)));
        }
    }

    fn make_stack_stack(&mut self, fr: Square, to: Square)
        requires
            old(self).wf(),
            old(self)@.applicable(Mv::StackStack(fr, to)),
        ensures
            final(self).wf(),
            final(self)@.cells == old(self)@.cells_after(Mv::StackStack(fr, to)),
            final(self).turn == old(self).turn,
            final(self).halfmoves == old(self).halfmoves,
            final(self).fullmoves == old(self).fullmoves,
    {
        let us = self.turn;
        proof {
            self.lemma_cells();
        }
        let piece = self.get_piece_on(Layer::Upper, fr).unwrap();
        let bottom = self.get_piece_on(Layer::Lower, fr).unwrap();

        // Remove pieces
        self.clear(fr);

        // Add pieces
        self.place(fr, us, bottom);
        self.stack_on(to, piece);
        proof {
            assert(self@.cells =~= old(self)@.cells_after(Mv::StackStack(fr, to)));
        }
    }

    fn make_stack_stack_move(&mut self, fr: Square, sq1: Square, sq2: Square)
        requires
            old(self).wf(),
            old(self)@.applicable(Mv::StackStackMove(fr, sq1, sq2)),
        ensures
            final(self).wf(),
            final(self)@.cells == old(self)@.cells_after(Mv::StackStackMove(fr, sq1, sq2)),
            final(self).turn == old(self).turn,
            final(self).halfmoves == old(self).halfmoves,
            final(self).fullmoves == old(self).fullmoves,
    {
        let us = self.turn;
        proof {
            self.lemma_cells();
        }
        let piece = self.get_piece_on(Layer::Upper, fr).unwrap();
        let bottom = self.get_piece_on(Layer::Lower, fr).unwrap();
        let joined = self.get_piece_on(Layer::Lower, sq1).unwrap();

        // Remove captured
        self.clear(sq2);

        // Remove pieces
        self.clear(fr);
        self.clear(sq1);

        // Add pieces
        self.place(fr, us, bottom);
        self.place(sq2, us, joined);
        self.stack_on(sq2, piece);
        proof {
            assert(self@.cells =~= old(self)@.cells_after(Mv::StackStackMove(fr, sq1, sq2)));
        }
    }

    /// Plays `mv`.
    pub fn makemove(&mut self, mv: &Mv)
        requires
            old(self).wf(),
            old(self)@.applicable(*mv),
            old(self).halfmoves < i32::MAX,
        ensures
            final(self).wf(),
            final(self)@ == old(self)@.apply(*mv),
    {
        match *mv {
            Mv::SoloMove(fr, to) => self.make_solo_move(fr, to),
            Mv::SoloStack(fr, to) => self.make_solo_stack(fr, to),
            Mv::SoloStackMove(fr, sq1, sq2) => self.make_solo_stack_move(fr, sq1, sq2),
            Mv::StackMove(fr, to) => self.make_stack_move(fr, to),
            Mv::StackMoveDestack(fr, sq1, sq2) => self.make_stack_move_destack(fr, sq1, sq2),
            Mv::StackDestack(fr, to) => self.make_stack_destack(fr, to),
            Mv::StackStack(fr, to) => self.make_stack_stack(fr, to),
            Mv::StackStackMove(fr, sq1, sq2) => self.make_stack_stack_move(fr, sq1, sq2),
        }
        self.pass_turn();
    }

    /// Counts one half move and lets the other side move.
    fn pass_turn(&mut self)
        requires
            old(self).wf(),
            old(self).halfmoves < i32::MAX,
        ensures
            final(self).wf(),
            final(self)@.cells == old(self)@.cells,
            final(self).turn == old(self).turn.other(),
            final(self).halfmoves == old(self).halfmoves + 1,
            final(self).fullmoves == old(self).fullmoves,
    {
        self.halfmoves = self.halfmoves + 1;
        self.turn = self.turn.not();
        proof {
            self.lemma_same_sets(old(self));
        }
    }
}

} // verus!
