use crate::layer::Layer;
use crate::position::{Piece, Position};
use crate::side::Side;
use vstd::prelude::*;

verus! {

impl Position {
    /// Whether the sets of the position describe a board.
    #[must_use]
    pub fn is_valid(&self) -> (valid: bool)
        ensures
            valid == self.wf(),
    {
        let white = self.sides[Side::White.index()];
        let black = self.sides[Side::Black.index()];

        let lower_rock = self.pieces[Piece::Rock.index()][Layer::Lower.index()];
        let lower_paper = self.pieces[Piece::Paper.index()][Layer::Lower.index()];
        let lower_scissors = self.pieces[Piece::Scissors.index()][Layer::Lower.index()];
        let lower_wise = self.pieces[Piece::Wise.index()][Layer::Lower.index()];
        let lower_rps = lower_rock | lower_paper | lower_scissors;

        let upper_rock = self.pieces[Piece::Rock.index()][Layer::Upper.index()];
        let upper_paper = self.pieces[Piece::Paper.index()][Layer::Upper.index()];
        let upper_scissors = self.pieces[Piece::Scissors.index()][Layer::Upper.index()];
        let upper_wise = self.pieces[Piece::Wise.index()][Layer::Upper.index()];

        let lower = lower_rps | lower_wise;
        let upper = upper_rock | upper_paper | upper_scissors | upper_wise;

        // Every set on the board
        let on_board = white.is_on_board() && black.is_on_board() && lower_rock.is_on_board()
            && lower_paper.is_on_board() && lower_scissors.is_on_board() && lower_wise.is_on_board()
            && upper_rock.is_on_board() && upper_paper.is_on_board() && upper_scissors.is_on_board()
            && upper_wise.is_on_board();

        // Side overlaps
        let sides_apart = white.is_disjoint_from(black);

        // Lower piece overlaps
        let lower_apart = lower_rock.is_disjoint_from(lower_paper) && lower_rock.is_disjoint_from(
            lower_scissors,
        ) && lower_rock.is_disjoint_from(lower_wise) && lower_paper.is_disjoint_from(
            lower_scissors,
        ) && lower_paper.is_disjoint_from(lower_wise) && lower_scissors.is_disjoint_from(
            lower_wise,
        );

        // Upper piece overlaps
        let upper_apart = upper_rock.is_disjoint_from(upper_paper) && upper_rock.is_disjoint_from(
            upper_scissors,
        ) && upper_rock.is_disjoint_from(upper_wise) && upper_paper.is_disjoint_from(
            upper_scissors,
        ) && upper_paper.is_disjoint_from(upper_wise) && upper_scissors.is_disjoint_from(
            upper_wise,
        );

        // Top piece without a bottom piece
        let stacks_rest = upper.is_subset_of(lower);

        // Wise on RPS
        let wise_on_wise = upper_wise.is_disjoint_from(lower_rps);

        // Side without a piece, piece without a side
        let occupied = white | black;
        let sides_cover = occupied == lower;

        proof {
            assert(lower@ =~= self.layer_set(Layer::Lower));
            assert(upper@ =~= self.layer_set(Layer::Upper));
            assert(lower_rps@ =~= self.piece_set(Piece::Rock, Layer::Lower) + self.piece_set(
                Piece::Paper,
                Layer::Lower,
            ) + self.piece_set(Piece::Scissors, Layer::Lower));
            crate::bitboard::lemma_view_injective(occupied, lower);
            if on_board {
                assert forall|s: int| 0 <= s < 2 implies (#[trigger] self.sides[s]).wf() by {}
                assert forall|p: int, l: int| 0 <= p < 4 && 0 <= l < 2 implies (
                #[trigger] self.pieces[p][l]).wf() by {}
            } else if self.on_board() {
                assert(self.sides[0].wf() && self.sides[1].wf());
                assert(self.pieces[0][0].wf() && self.pieces[0][1].wf());
                assert(self.pieces[1][0].wf() && self.pieces[1][1].wf());
                assert(self.pieces[2][0].wf() && self.pieces[2][1].wf());
                assert(self.pieces[3][0].wf() && self.pieces[3][1].wf());
            }
            if lower_apart && upper_apart {
                assert forall|p: Piece, q: Piece, l: Layer| p != q implies (
                #[trigger] self.piece_set(p, l)).disjoint(#[trigger] self.piece_set(q, l)) by {}
            }
            if self.wf() {
                assert(self.piece_set(Piece::Rock, Layer::Lower).disjoint(
                    self.piece_set(Piece::Paper, Layer::Lower),
                ));
                assert(self.piece_set(Piece::Rock, Layer::Lower).disjoint(
                    self.piece_set(Piece::Scissors, Layer::Lower),
                ));
                assert(self.piece_set(Piece::Rock, Layer::Lower).disjoint(
                    self.piece_set(Piece::Wise, Layer::Lower),
                ));
                assert(self.piece_set(Piece::Paper, Layer::Lower).disjoint(
                    self.piece_set(Piece::Scissors, Layer::Lower),
                ));
                assert(self.piece_set(Piece::Paper, Layer::Lower).disjoint(
                    self.piece_set(Piece::Wise, Layer::Lower),
                ));
                assert(self.piece_set(Piece::Scissors, Layer::Lower).disjoint(
                    self.piece_set(Piece::Wise, Layer::Lower),
                ));
                assert(self.piece_set(Piece::Rock, Layer::Upper).disjoint(
                    self.piece_set(Piece::Paper, Layer::Upper),
                ));
                assert(self.piece_set(Piece::Rock, Layer::Upper).disjoint(
                    self.piece_set(Piece::Scissors, Layer::Upper),
                ));
                assert(self.piece_set(Piece::Rock, Layer::Upper).disjoint(
                    self.piece_set(Piece::Wise, Layer::Upper),
                ));
                assert(self.piece_set(Piece::Paper, Layer::Upper).disjoint(
                    self.piece_set(Piece::Scissors, Layer::Upper),
                ));
                assert(self.piece_set(Piece::Paper, Layer::Upper).disjoint(
                    self.piece_set(Piece::Wise, Layer::Upper),
                ));
                assert(self.piece_set(Piece::Scissors, Layer::Upper).disjoint(
                    self.piece_set(Piece::Wise, Layer::Upper),
                ));
            }
        }

        on_board && sides_apart && lower_apart && upper_apart && stacks_rest && wise_on_wise
            && sides_cover
    }
}

} // verus!
