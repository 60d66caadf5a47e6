use crate::bitboard::Bitboard;
use crate::move_generator::get_moves;
use crate::mv::Mv;
use crate::position::{Board, Piece, Position};
use vstd::prelude::*;

verus! {

impl Position {
    /// The legal moves in the order of generation.
    #[must_use]
    pub fn legal_moves(&self) -> (moves: Vec<Mv>)
        requires
            self.wf(),
        ensures
            moves@ == self@.legal_moves(),
    {
        let mut moves: Vec<Mv> = Vec::new();

        // Rock > Scissors
        get_moves(
            self.get_us(),
            self.get_them(),
            self.get_short(),
            self.get_tall(),
            self.get_visible(Piece::Rock) & self.get_us(),
            self.get_us() & self.get_short(),
            self.get_visible(Piece::Scissors) & self.get_them(),
            &mut moves,
        );

        // Paper > Rock
        get_moves(
            self.get_us(),
            self.get_them(),
            self.get_short(),
            self.get_tall(),
            self.get_visible(Piece::Paper) & self.get_us(),
            self.get_us() & self.get_short(),
            self.get_visible(Piece::Rock) & self.get_them(),
            &mut moves,
        );

        // Scissors > Paper
        get_moves(
            self.get_us(),
            self.get_them(),
            self.get_short(),
            self.get_tall(),
            self.get_visible(Piece::Scissors) & self.get_us(),
            self.get_us() & self.get_short(),
            self.get_visible(Piece::Paper) & self.get_them(),
            &mut moves,
        );

        // Wise > None
        get_moves(
            self.get_us(),
            self.get_them(),
            self.get_short(),
            self.get_tall(),
            self.get_visible(Piece::Wise) & self.get_us(),
            self.get_us() & self.get_short() & self.get_wise(),
            Bitboard::empty(),
            &mut moves,
        );

        proof {
            assert(moves@ =~= self@.legal_moves());
        }
        moves
    }
}

impl Board {
    /// The first legal move with the text `text`, in the order of generation.
    pub open spec fn find_move(self, text: Seq<char>) -> Option<Mv> {
        let moves = self.legal_moves();
        if exists|k: int| 0 <= k < moves.len() && (#[trigger] moves[k]).spec_text() == text {
            let first = choose|k: int|
                0 <= k < moves.len() && (#[trigger] moves[k]).spec_text() == text && forall|j: int|
                    0 <= j < k ==> (#[trigger] moves[j]).spec_text() != text;
            Some(moves[first])
        } else {
            None
        }
    }
}

impl Position {
    /// The legal move that `movestr` names: the first with that text in the
    /// order of generation, as two shapes can share a text.
    #[verifier::spinoff_prover]
    #[verifier::rlimit(40)]
    pub fn find_move(&self, movestr: &str) -> (found: Option<Mv>)
        requires
            self.wf(),
        ensures
            found == self@.find_move(movestr@),
            found matches Some(mv) ==> self@.legal_moves().contains(mv) && mv.spec_text()
                == movestr@,
            found is None ==> forall|k: int|
                0 <= k < self@.legal_moves().len() ==> (
                #[trigger] self@.legal_moves()[k]).spec_text() != movestr@,
    {
        let wanted = String::from_str(movestr);
        let moves = self.legal_moves();
        let mut i: usize = 0;
        proof {
            self.lemma_cells();
        }
        while i < moves.len()
            invariant
                self@.wf(),
                moves@ == self@.legal_moves(),
                wanted@ == movestr@,
                0 <= i <= moves.len(),
                forall|j: int| 0 <= j < i ==> (#[trigger] moves@[j]).spec_text() != movestr@,
            decreases moves.len() - i,
        {
            let mv = moves[i];
            proof {
                assert(self@.legal_moves().contains(mv));
                self@.lemma_legal_move_keeps_wf(mv);
            }
            let text = mv.to_string();
            if text == wanted {
                proof {
                    let all = self@.legal_moves();
                    let k = i as int;
                    assert(0 <= k < all.len() && all[k].spec_text() == movestr@ && forall|j: int|
                        0 <= j < k ==> (#[trigger] all[j]).spec_text() != movestr@);
                    let first = choose|k: int|
                        0 <= k < all.len() && (#[trigger] all[k]).spec_text() == movestr@
                            && forall|j: int|
                            0 <= j < k ==> (#[trigger] all[j]).spec_text() != movestr@;
                    assert(first == k) by {
                        if first < k {
                            assert(all[first].spec_text() != movestr@);
                        }
                        if k < first {
                            assert(all[k].spec_text() != movestr@);
                        }
                    }
                }
                return Some(mv);
            }
            i += 1;
        }
        None
    }
}

} // verus!
